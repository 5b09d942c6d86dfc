//! Local threat shapes on a board: runs of stones along a line, the squares
//! that complete a four, the rest squares of a broken three, and the threat
//! facts read from a run or a line through a stone.
use vstd::prelude::*;
use crate::analysis::{AnalysisOptions, DefensePolicy, LocalThreatKind, ThreatReplySet};
use crate::proof_markers::{extend_unique_moves, extend_unique_spec, law_extend_unique_keeps_moves_distinct};
use crate::board::{BoardGrid, Color, Move};

verus! {

/// A local threat of a player and the squares that answer it.
#[derive(Debug, Clone, PartialEq, Eq)]
pub struct LocalThreatFact {
    pub kind: LocalThreatKind,
    pub defense_squares: Vec<Move>,
}

/// The largest board size and run length the threat scans take: an
/// eighth of the signed machine range, so that coordinates, run lengths and
/// offsets added together still fit in `isize`.
pub open spec fn coord_limit() -> int {
    isize::MAX as int / 8
}

/// The coordinate range the scans' intermediate values stay in.
pub open spec fn coord_span() -> int {
    3 * coord_limit()
}

/// The board is a full grid small enough for signed coordinate arithmetic.
pub open spec fn board_ok(b: BoardGrid) -> bool {
    b.wf() && b.size <= coord_limit()
}

/// A line direction: each step changes the row and the column by at most
/// one, and not both by zero.
pub open spec fn dir_ok(dr: isize, dc: isize) -> bool {
    -1 <= dr <= 1 && -1 <= dc <= 1 && !(dr == 0 && dc == 0)
}

/// The coordinate `i` steps of `d` away from `x`.
pub open spec fn along(x: int, d: int, i: int) -> int {
    if d > 0 {
        x + i
    } else if d < 0 {
        x - i
    } else {
        x
    }
}

/// The square lies on the board.
pub open spec fn in_board(b: BoardGrid, r: int, c: int) -> bool {
    0 <= r < b.size && 0 <= c < b.size
}

/// The square is on the board and holds a stone of `p`.
pub open spec fn color_at(b: BoardGrid, r: int, c: int, p: Color) -> bool {
    in_board(b, r, c) && b.cell_spec(r, c) == Some(p)
}

/// The square is on the board and empty.
pub open spec fn empty_at(b: BoardGrid, r: int, c: int) -> bool {
    in_board(b, r, c) && b.cell_spec(r, c) is None
}

fn along_exec(x: isize, d: isize, i: isize) -> (r: isize)
    requires
        -coord_span() <= x <= coord_span(),
        -coord_span() <= i <= coord_span(),
    ensures
        r == along(x as int, d as int, i as int),
{
    if d > 0 {
        x + i
    } else if d < 0 {
        x - i
    } else {
        x
    }
}

/// Whether the coordinates lie on the board.
pub fn in_bounds(board: &BoardGrid, row: isize, col: isize) -> (r: bool)
    requires
        board_ok(*board),
    ensures
        r == in_board(*board, row as int, col as int),
{
    let size = board.size as isize;
    row >= 0 && row < size && col >= 0 && col < size
}

/// Whether the square holds a stone of `player` (false off the board).
pub fn has_color(board: &BoardGrid, row: isize, col: isize, player: Color) -> (r: bool)
    requires
        board_ok(*board),
    ensures
        r == color_at(*board, row as int, col as int, player),
{
    if !in_bounds(board, row, col) {
        return false;
    }
    match board.cell(row as usize, col as usize) {
        Some(c) => c == player,
        None => false,
    }
}

/// Whether the square is empty (false off the board).
pub fn is_empty_square(board: &BoardGrid, row: isize, col: isize) -> (r: bool)
    requires
        board_ok(*board),
    ensures
        r == empty_at(*board, row as int, col as int),
{
    if !in_bounds(board, row, col) {
        return false;
    }
    board.cell(row as usize, col as usize).is_none()
}

/// How many stones of `p` follow `(r, c)` in direction `(dr, dc)` without a
/// gap (looking at most `fuel` squares ahead).
pub open spec fn ray(b: BoardGrid, r: int, c: int, p: Color, dr: int, dc: int, fuel: nat) -> nat
    decreases fuel,
{
    if fuel == 0 {
        0
    } else if color_at(b, along(r, dr, 1), along(c, dc, 1), p) {
        1 + ray(b, along(r, dr, 1), along(c, dc, 1), p, dr, dc, (fuel - 1) as nat)
    } else {
        0
    }
}

proof fn lemma_along_step(x: int, d: int, i: int)
    ensures
        along(along(x, d, i), d, 1) == along(x, d, i + 1),
        along(x, d, 0) == x,
{
}

proof fn lemma_ray_bound(b: BoardGrid, r: int, c: int, p: Color, dr: int, dc: int, fuel: nat)
    ensures
        ray(b, r, c, p, dr, dc, fuel) <= fuel,
    decreases fuel,
{
    if fuel > 0 {
        lemma_ray_bound(b, along(r, dr, 1), along(c, dc, 1), p, dr, dc, (fuel - 1) as nat);
    }
}

/// On a line, `k` steps from a square still on the board bound `k` by the
/// board size.
proof fn lemma_steps_on_board(b: BoardGrid, r: int, c: int, dr: int, dc: int, k: int)
    requires
        -1 <= dr <= 1,
        -1 <= dc <= 1,
        !(dr == 0 && dc == 0),
        in_board(b, r, c),
        in_board(b, along(r, dr, k), along(c, dc, k)),
        k >= 0,
    ensures
        k < b.size,
{
}

/// How many stones of `player` follow `mv` in direction `(dr, dc)` without
/// a gap.
pub fn count_player_from_move(board: &BoardGrid, mv: Move, player: Color, dr: isize, dc: isize) -> (r:
    usize)
    requires
        board_ok(*board),
        dir_ok(dr, dc),
        mv.row < board.size,
        mv.col < board.size,
    ensures
        r == ray(*board, mv.row as int, mv.col as int, player, dr as int, dc as int, board.size as nat),
        r < board.size,
{
    let ghost b = *board;
    let ghost r0 = mv.row as int;
    let ghost c0 = mv.col as int;
    let mut count: usize = 0;
    let mut row = along_exec(mv.row as isize, dr, 1);
    let mut col = along_exec(mv.col as isize, dc, 1);
    while has_color(board, row, col, player)
        invariant
            board_ok(*board),
            b == *board,
            dir_ok(dr, dc),
            r0 == mv.row,
            c0 == mv.col,
            mv.row < board.size,
            mv.col < board.size,
            count < board.size,
            row == along(r0, dr as int, count + 1),
            col == along(c0, dc as int, count + 1),
            ray(b, r0, c0, player, dr as int, dc as int, board.size as nat) == count + ray(
                b,
                along(r0, dr as int, count as int),
                along(c0, dc as int, count as int),
                player,
                dr as int,
                dc as int,
                (board.size - count) as nat,
            ),
        decreases board.size - count,
    {
        proof {
            lemma_steps_on_board(b, r0, c0, dr as int, dc as int, count + 1);
            lemma_along_step(r0, dr as int, count as int);
            lemma_along_step(c0, dc as int, count as int);
            assert((board.size - count) as nat > 0);
        }
        count += 1;
        row = along_exec(row, dr, 1);
        col = along_exec(col, dc, 1);
        proof {
            lemma_along_step(r0, dr as int, count as int);
            lemma_along_step(c0, dc as int, count as int);
        }
    }
    proof {
        lemma_along_step(r0, dr as int, count as int);
        lemma_along_step(c0, dc as int, count as int);
    }
    count
}

/// The length of the run of `player` stones through `mv` along the line
/// `(dr, dc)`, counting `mv` itself.
pub open spec fn run_len_spec(b: BoardGrid, mv: Move, p: Color, dr: int, dc: int) -> int {
    1int + ray(b, mv.row as int, mv.col as int, p, dr, dc, b.size as nat) + ray(
        b,
        mv.row as int,
        mv.col as int,
        p,
        -dr,
        -dc,
        b.size as nat,
    )
}

/// The length of the run of stones through `mv`, counting `mv` itself.
pub fn contiguous_run_len_through_move(
    board: &BoardGrid,
    mv: Move,
    player: Color,
    dr: isize,
    dc: isize,
) -> (r: usize)
    requires
        board_ok(*board),
        dir_ok(dr, dc),
        mv.row < board.size,
        mv.col < board.size,
    ensures
        r == run_len_spec(*board, mv, player, dr as int, dc as int),
        r <= 2 * board.size + 1,
{
    let a = count_player_from_move(board, mv, player, dr, dc);
    let b = count_player_from_move(board, mv, player, -dr, -dc);
    1 + a + b
}

/// `mv` starts a run in direction `(dr, dc)`: the square before it is off
/// the board or not a stone of `p`.
pub open spec fn run_start_spec(b: BoardGrid, mv: Move, p: Color, dr: int, dc: int) -> bool {
    !color_at(b, along(mv.row as int, dr, -1), along(mv.col as int, dc, -1), p)
}

/// Whether a run of `player` in direction `(dr, dc)` starts at `mv`.
pub fn is_run_start(board: &BoardGrid, mv: Move, player: Color, dr: isize, dc: isize) -> (r: bool)
    requires
        board_ok(*board),
        dir_ok(dr, dc),
        mv.row < board.size,
        mv.col < board.size,
    ensures
        r == run_start_spec(*board, mv, player, dr as int, dc as int),
{
    let previous_row = along_exec(mv.row as isize, dr, -1);
    let previous_col = along_exec(mv.col as isize, dc, -1);
    !has_color(board, previous_row, previous_col, player)
}

/// The square `distance` steps from `mv` in direction `(dr, dc)`, when it
/// is on the board.
pub fn offset_move(board: &BoardGrid, mv: Move, dr: isize, dc: isize, distance: usize) -> (r: Option<
    Move,
>)
    requires
        board_ok(*board),
        dir_ok(dr, dc),
        mv.row < board.size,
        mv.col < board.size,
        distance <= coord_limit(),
    ensures
        match r {
            Some(m) => in_board(*board, along(mv.row as int, dr as int, distance as int), along(
                mv.col as int,
                dc as int,
                distance as int,
            )) && m.row == along(mv.row as int, dr as int, distance as int) && m.col == along(
                mv.col as int,
                dc as int,
                distance as int,
            ),
            None => !in_board(*board, along(mv.row as int, dr as int, distance as int), along(
                mv.col as int,
                dc as int,
                distance as int,
            )),
        },
{
    let row = along_exec(mv.row as isize, dr, distance as isize);
    let col = along_exec(mv.col as isize, dc, distance as isize);
    if in_bounds(board, row, col) {
        Some(Move { row: row as usize, col: col as usize })
    } else {
        None
    }
}

/// Whether the square holds a stone of `player` or is the rest square.
pub open spec fn color_or_rest(b: BoardGrid, r: int, c: int, p: Color, rest: Move) -> bool {
    (r == rest.row && c == rest.col) || color_at(b, r, c, p)
}

/// Whether the square holds a stone of `player` or is the rest square.
pub fn has_color_or_virtual_rest(board: &BoardGrid, row: usize, col: usize, player: Color, rest: Move) -> (r:
    bool)
    requires
        board_ok(*board),
        row < board.size,
        col < board.size,
    ensures
        r == color_or_rest(*board, row as int, col as int, player, rest),
{
    (row == rest.row && col == rest.col) || has_color(board, row as isize, col as isize, player)
}

/// How many squares after `(r, c)` in direction `(dr, dc)` hold a stone of
/// `p` or are the rest square, without a gap (at most `fuel`).
pub open spec fn vray(b: BoardGrid, r: int, c: int, p: Color, rest: Move, dr: int, dc: int, fuel: nat) -> nat
    decreases fuel,
{
    if fuel == 0 {
        0
    } else if in_board(b, along(r, dr, 1), along(c, dc, 1)) && color_or_rest(
        b,
        along(r, dr, 1),
        along(c, dc, 1),
        p,
        rest,
    ) {
        1 + vray(b, along(r, dr, 1), along(c, dc, 1), p, rest, dr, dc, (fuel - 1) as nat)
    } else {
        0
    }
}

/// How many squares from the rest square in direction `step * (dr, dc)`
/// hold a stone of `player` (or are the rest square), without a gap.
pub fn virtual_count_in_direction(
    board: &BoardGrid,
    rest: Move,
    player: Color,
    dr: isize,
    dc: isize,
    step: isize,
) -> (r: usize)
    requires
        board_ok(*board),
        dir_ok(dr, dc),
        step == 1 || step == -1,
        rest.row < board.size,
        rest.col < board.size,
    ensures
        r == vray(
            *board,
            rest.row as int,
            rest.col as int,
            player,
            rest,
            dr * step,
            dc * step,
            board.size as nat,
        ),
        r < board.size,
{
    let ghost b = *board;
    let ghost r0 = rest.row as int;
    let ghost c0 = rest.col as int;
    let sr: isize = if step > 0 {
        dr
    } else {
        -dr
    };
    let sc: isize = if step > 0 {
        dc
    } else {
        -dc
    };
    assert(sr == dr * step && sc == dc * step);
    let mut count: usize = 0;
    let mut row = along_exec(rest.row as isize, sr, 1);
    let mut col = along_exec(rest.col as isize, sc, 1);
    while in_bounds(board, row, col) && has_color_or_virtual_rest(
        board,
        row as usize,
        col as usize,
        player,
        rest,
    )
        invariant
            board_ok(*board),
            b == *board,
            dir_ok(sr, sc),
            r0 == rest.row,
            c0 == rest.col,
            rest.row < board.size,
            rest.col < board.size,
            count < board.size,
            row == along(r0, sr as int, count + 1),
            col == along(c0, sc as int, count + 1),
            vray(b, r0, c0, player, rest, sr as int, sc as int, board.size as nat) == count + vray(
                b,
                along(r0, sr as int, count as int),
                along(c0, sc as int, count as int),
                player,
                rest,
                sr as int,
                sc as int,
                (board.size - count) as nat,
            ),
        decreases board.size - count,
    {
        proof {
            lemma_steps_on_board(b, r0, c0, sr as int, sc as int, count + 1);
            lemma_along_step(r0, sr as int, count as int);
            lemma_along_step(c0, sc as int, count as int);
        }
        count += 1;
        row = along_exec(row, sr, 1);
        col = along_exec(col, sc, 1);
        proof {
            lemma_along_step(r0, sr as int, count as int);
            lemma_along_step(c0, sc as int, count as int);
        }
    }
    proof {
        lemma_along_step(r0, sr as int, count as int);
        lemma_along_step(c0, sc as int, count as int);
    }
    count
}

/// The length of the run through the rest square once it is filled.
pub open spec fn virtual_run_spec(b: BoardGrid, rest: Move, p: Color, dr: int, dc: int) -> int {
    1int + vray(b, rest.row as int, rest.col as int, p, rest, -dr, -dc, b.size as nat) + vray(
        b,
        rest.row as int,
        rest.col as int,
        p,
        rest,
        dr,
        dc,
        b.size as nat,
    )
}

/// The length of the run of `player` through the rest square, counting the
/// rest square as a stone.
pub fn virtual_run_len(board: &BoardGrid, rest: Move, player: Color, dr: isize, dc: isize) -> (r: usize)
    requires
        board_ok(*board),
        dir_ok(dr, dc),
        rest.row < board.size,
        rest.col < board.size,
    ensures
        r == virtual_run_spec(*board, rest, player, dr as int, dc as int),
{
    let back = virtual_count_in_direction(board, rest, player, dr, dc, -1);
    let fwd = virtual_count_in_direction(board, rest, player, dr, dc, 1);
    assert(dr * -1 == -dr && dc * -1 == -dc);
    assert(dr * 1 == dr && dc * 1 == dc);
    1 + back + fwd
}

/// Appends `mv` unless it is present already.
pub fn push_unique_move(moves: &mut Vec<Move>, mv: Move)
    ensures
        final(moves)@ == (if old(moves)@.contains(mv) {
            old(moves)@
        } else {
            old(moves)@.push(mv)
        }),
{
    let mut i: usize = 0;
    while i < moves.len()
        invariant
            i <= moves.len(),
            moves@ == old(moves)@,
            forall|j: int| 0 <= j < i ==> moves@[j] != mv,
        decreases moves.len() - i,
    {
        if moves[i] == mv {
            assert(moves@[i as int] == mv);
            return;
        }
        i += 1;
    }
    moves.push(mv);
}

/// The moves of `priority` that are among `all_moves` (each once, in
/// priority order), then the rest of `all_moves` not yet listed.
pub open spec fn tactical_first_spec(priority: Seq<Move>, all_moves: Seq<Move>) -> Seq<Move> {
    crate::proof_markers::extend_unique_spec(
        crate::proof_markers::extend_unique_spec(
            Seq::empty(),
            priority.filter(|m: Move| all_moves.contains(m)),
        ),
        all_moves,
    )
}

/// Orders the moves so that the priority moves come first.
pub fn tactical_first_moves(priority: Vec<Move>, all_moves: Vec<Move>) -> (r: Vec<Move>)
    ensures
        r@ == tactical_first_spec(priority@, all_moves@),
{
    let mut moves: Vec<Move> = Vec::new();
    let mut kept: Vec<Move> = Vec::new();
    let mut i: usize = 0;
    proof {
        reveal(Seq::filter);
    }
    assert(priority@.take(0).filter(|m: Move| all_moves@.contains(m)) =~= Seq::<Move>::empty());
    while i < priority.len()
        invariant
            i <= priority.len(),
            kept@ == priority@.take(i as int).filter(|m: Move| all_moves@.contains(m)),
        decreases priority.len() - i,
    {
        let mv = priority[i];
        let mut found = false;
        let mut j: usize = 0;
        while j < all_moves.len()
            invariant
                j <= all_moves.len(),
                found == (exists|k: int| 0 <= k < j && all_moves@[k] == mv),
            decreases all_moves.len() - j,
        {
            if all_moves[j] == mv {
                found = true;
            }
            j += 1;
        }
        assert(priority@.take(i + 1).drop_last() =~= priority@.take(i as int));
        assert(priority@.take(i + 1).last() == mv);
        proof {
            reveal(Seq::filter);
        }
        if found {
            kept.push(mv);
        }
        i += 1;
    }
    assert(priority@.take(priority.len() as int) =~= priority@);
    crate::proof_markers::extend_unique_moves(&mut moves, kept.as_slice());
    crate::proof_markers::extend_unique_moves(&mut moves, all_moves.as_slice());
    moves
}

/// The row `o` steps along the line through `mv`.
pub open spec fn line_r(mv: Move, dr: int, o: int) -> int {
    along(mv.row as int, dr, o)
}

/// The column `o` steps along the line through `mv`.
pub open spec fn line_c(mv: Move, dc: int, o: int) -> int {
    along(mv.col as int, dc, o)
}

/// The `w` squares from offset `s` on the line through `mv` are on the
/// board, the one at offset `e` is empty and all the others hold stones of
/// `p`.
pub open spec fn one_empty_window(
    b: BoardGrid,
    mv: Move,
    p: Color,
    dr: int,
    dc: int,
    w: int,
    s: int,
    e: int,
) -> bool {
    &&& s <= e < s + w
    &&& empty_at(b, line_r(mv, dr, e), line_c(mv, dc, e))
    &&& forall|o: int|
        s <= o < s + w && o != e ==> #[trigger] color_at(b, line_r(mv, dr, o), line_c(mv, dc, o), p)
}

/// `m` completes a four through `mv`: it is the one empty square of a
/// window of `w` squares on the line through `mv` that contains `mv`.
pub open spec fn is_four_completion(
    b: BoardGrid,
    mv: Move,
    p: Color,
    dr: int,
    dc: int,
    w: int,
    m: Move,
) -> bool {
    exists|s: int, e: int|
        1 - w <= s <= 0 && #[trigger] one_empty_window(b, mv, p, dr, dc, w, s, e) && m.row == line_r(
            mv,
            dr,
            e,
        ) && m.col == line_c(mv, dc, e)
}

/// The square at offset `q` of the line through `mv` is on the board and
/// holds a stone of `p` or nothing.
pub open spec fn open_or_own(b: BoardGrid, mv: Move, p: Color, dr: int, dc: int, q: int) -> bool {
    in_board(b, line_r(mv, dr, q), line_c(mv, dc, q)) && (color_at(
        b,
        line_r(mv, dr, q),
        line_c(mv, dc, q),
        p,
    ) || empty_at(b, line_r(mv, dr, q), line_c(mv, dc, q)))
}

/// The square at offset `q` of the line through `mv` holds a stone of `p`.
pub open spec fn own_at(b: BoardGrid, mv: Move, p: Color, dr: int, dc: int, q: int) -> bool {
    color_at(b, line_r(mv, dr, q), line_c(mv, dc, q), p)
}

/// The completion square of the window starting at offset `s`, if it has
/// one.
fn window_completion(
    board: &BoardGrid,
    mv: Move,
    player: Color,
    dr: isize,
    dc: isize,
    w: isize,
    s: isize,
) -> (r: Option<Move>)
    requires
        board_ok(*board),
        dir_ok(dr, dc),
        mv.row < board.size,
        mv.col < board.size,
        1 <= w <= coord_limit(),
        1 - w <= s <= 0,
    ensures
        match r {
            Some(m) => exists|e: int|
                #[trigger] one_empty_window(*board, mv, player, dr as int, dc as int, w as int, s as int, e)
                    && m.row == line_r(mv, dr as int, e) && m.col == line_c(mv, dc as int, e),
            None => forall|e: int|
                !#[trigger] one_empty_window(*board, mv, player, dr as int, dc as int, w as int, s as int, e),
        },
{
    let ghost b = *board;
    let mut player_count: usize = 0;
    let mut empty_square: Option<Move> = None;
    let ghost mut e0: int = 0;
    let mut blocked = false;
    let mut o: isize = s;
    while o < s + w && !blocked
        invariant
            board_ok(*board),
            b == *board,
            dir_ok(dr, dc),
            mv.row < board.size,
            mv.col < board.size,
            1 <= w <= coord_limit(),
            1 - w <= s <= 0,
            s <= o <= s + w,
            !blocked ==> forall|q: int|
                s <= q < o ==> #[trigger] open_or_own(b, mv, player, dr as int, dc as int, q),
            !blocked && empty_square is None ==> forall|q: int|
                s <= q < o ==> #[trigger] own_at(b, mv, player, dr as int, dc as int, q),
            !blocked && empty_square is Some ==> {
                &&& s <= e0 < o
                &&& empty_at(b, line_r(mv, dr as int, e0), line_c(mv, dc as int, e0))
                &&& empty_square->0.row == line_r(mv, dr as int, e0)
                &&& empty_square->0.col == line_c(mv, dc as int, e0)
                &&& forall|q: int|
                    s <= q < o && q != e0 ==> #[trigger] own_at(b, mv, player, dr as int, dc as int, q)
            },
            !blocked ==> player_count == (o - s) - (if empty_square is Some {
                1int
            } else {
                0
            }),
            blocked ==> forall|e: int|
                !#[trigger] one_empty_window(b, mv, player, dr as int, dc as int, w as int, s as int, e),
        decreases s + w - o, (if blocked { 0int } else { 1int }),
    {
        let row = along_exec(mv.row as isize, dr, o);
        let col = along_exec(mv.col as isize, dc, o);
        assert(row as int == line_r(mv, dr as int, o as int));
        assert(col as int == line_c(mv, dc as int, o as int));
        if !in_bounds(board, row, col) {
            blocked = true;
            assert forall|e: int| !#[trigger] one_empty_window(b, mv, player, dr as int, dc as int, w as int, s as int, e) by {
                if one_empty_window(b, mv, player, dr as int, dc as int, w as int, s as int, e) {
                    if e != o {
                        assert(color_at(b, line_r(mv, dr as int, o as int), line_c(mv, dc as int, o as int), player));
                    }
                }
            }
        } else if has_color(board, row, col, player) {
            assert(own_at(b, mv, player, dr as int, dc as int, o as int));
            assert(open_or_own(b, mv, player, dr as int, dc as int, o as int));
            player_count += 1;
            o += 1;
        } else if is_empty_square(board, row, col) && empty_square.is_none() {
            empty_square = Some(Move { row: row as usize, col: col as usize });
            assert(empty_at(b, line_r(mv, dr as int, o as int), line_c(mv, dc as int, o as int)));
            assert(open_or_own(b, mv, player, dr as int, dc as int, o as int));
            proof {
                e0 = o as int;
            }
            o += 1;
        } else {
            let ghost had = empty_square;
            blocked = true;
            assert forall|e: int| !#[trigger] one_empty_window(b, mv, player, dr as int, dc as int, w as int, s as int, e) by {
                if one_empty_window(b, mv, player, dr as int, dc as int, w as int, s as int, e) {
                    if e != o {
                        assert(color_at(b, line_r(mv, dr as int, o as int), line_c(mv, dc as int, o as int), player));
                    } else {
                        assert(had is Some);
                        assert(color_at(b, line_r(mv, dr as int, e0), line_c(mv, dc as int, e0), player));
                    }
                }
            }
        }
    }
    if blocked {
        return None;
    }
    match empty_square {
        None => {
            assert forall|e: int| !#[trigger] one_empty_window(b, mv, player, dr as int, dc as int, w as int, s as int, e) by {
                if one_empty_window(b, mv, player, dr as int, dc as int, w as int, s as int, e) {
                    assert(own_at(b, mv, player, dr as int, dc as int, e));
                }
            }
            None
        },
        Some(m) => {
            assert(player_count == w - 1);
            assert forall|q: int| s <= q < s + w && q != e0 implies #[trigger] color_at(
                b,
                line_r(mv, dr as int, q),
                line_c(mv, dc as int, q),
                player,
            ) by {
                assert(own_at(b, mv, player, dr as int, dc as int, q));
            }
            assert(one_empty_window(b, mv, player, dr as int, dc as int, w as int, s as int, e0));
            Some(m)
        },
    }
}

/// The empty squares that would complete a four of `player` through `mv`
/// along the line `(dr, dc)`, sorted by row then column.
pub fn four_completion_squares_through_move(
    board: &BoardGrid,
    win_length: usize,
    mv: Move,
    player: Color,
    dr: isize,
    dc: isize,
) -> (r: Vec<Move>)
    requires
        board_ok(*board),
        dir_ok(dr, dc),
        mv.row < board.size,
        mv.col < board.size,
        win_length <= coord_limit(),
    ensures
        crate::lethal::strictly_sorted(r@),
        forall|m: Move| #[trigger]
            r@.contains(m) <==> is_four_completion(
                *board,
                mv,
                player,
                dr as int,
                dc as int,
                win_length as int,
                m,
            ),
{
    let ghost b = *board;
    let w = win_length as isize;
    let mut completions: Vec<Move> = Vec::new();
    if w == 0 {
        proof {
            assert forall|m: Move| !#[trigger] is_four_completion(b, mv, player, dr as int, dc as int, 0, m) by {}
        }
        return completions;
    }
    let mut s: isize = 1 - w;
    while s <= 0
        invariant
            board_ok(*board),
            b == *board,
            dir_ok(dr, dc),
            mv.row < board.size,
            mv.col < board.size,
            w == win_length,
            1 <= w <= coord_limit(),
            1 - w <= s <= 1,
            forall|m: Move| #[trigger]
                completions@.contains(m) <==> exists|s2: int, e: int|
                    1 - w <= s2 < s && #[trigger] one_empty_window(b, mv, player, dr as int, dc as int, w as int, s2, e)
                        && m.row == line_r(mv, dr as int, e) && m.col == line_c(mv, dc as int, e),
        decreases 1 - s,
    {
        let c = window_completion(board, mv, player, dr, dc, w, s);
        let ghost before = completions@;
        match c {
            Some(m) => {
                push_unique_move(&mut completions, m);
            },
            None => {},
        }
        assert forall|m2: Move| #[trigger] completions@.contains(m2) <==> exists|s2: int, e: int|
            1 - w <= s2 < s + 1 && #[trigger] one_empty_window(b, mv, player, dr as int, dc as int, w as int, s2, e)
                && m2.row == line_r(mv, dr as int, e) && m2.col == line_c(mv, dc as int, e) by {
            if completions@.contains(m2) {
                if before.contains(m2) {
                } else {
                    assert(c == Some(m2));
                }
            }
            if exists|s2: int, e: int|
                1 - w <= s2 < s + 1 && #[trigger] one_empty_window(b, mv, player, dr as int, dc as int, w as int, s2, e)
                    && m2.row == line_r(mv, dr as int, e) && m2.col == line_c(mv, dc as int, e) {
                let (s2, e) = choose|s2: int, e: int|
                    1 - w <= s2 < s + 1 && #[trigger] one_empty_window(b, mv, player, dr as int, dc as int, w as int, s2, e)
                        && m2.row == line_r(mv, dr as int, e) && m2.col == line_c(mv, dc as int, e);
                if s2 < s {
                    assert(before.contains(m2));
                    if !before.contains(m2) {
                    } else {
                        let k = choose|k: int| 0 <= k < before.len() && before[k] == m2;
                        assert(completions@[k] == m2);
                    }
                } else {
                    let m = c->0;
                    assert(c is Some);
                    let e1 = choose|e1: int|
                        #[trigger] one_empty_window(b, mv, player, dr as int, dc as int, w as int, s as int, e1)
                            && m.row == line_r(mv, dr as int, e1) && m.col == line_c(mv, dc as int, e1);
                    assert(e1 == e) by {
                        if e1 != e {
                            assert(color_at(b, line_r(mv, dr as int, e), line_c(mv, dc as int, e), player));
                        }
                    }
                    assert(m == m2);
                    if before.contains(m) {
                        let k = choose|k: int| 0 <= k < before.len() && before[k] == m;
                        assert(completions@[k] == m);
                    } else {
                        assert(completions@[before.len() as int] == m);
                    }
                }
            }
        }
        s += 1;
    }
    let ghost unsorted = completions@;
    crate::lethal::normalize_moves(&mut completions);
    assert forall|m: Move| #[trigger] completions@.contains(m) <==> is_four_completion(
        b,
        mv,
        player,
        dr as int,
        dc as int,
        win_length as int,
        m,
    ) by {
        assert(completions@.contains(m) == unsorted.contains(m));
    }
    completions
}

/// The offsets in `[s, s + k)` whose squares hold a stone of `p`, in order.
pub open spec fn own_offsets(b: BoardGrid, mv: Move, p: Color, dr: int, dc: int, s: int, k: nat) -> Seq<int>
    decreases k,
{
    if k == 0 {
        Seq::empty()
    } else {
        let prev = own_offsets(b, mv, p, dr, dc, s, (k - 1) as nat);
        if own_at(b, mv, p, dr, dc, s + k - 1) {
            prev.push(s + k - 1)
        } else {
            prev
        }
    }
}

/// The offsets in `[s, s + k)` whose squares are empty, in order.
pub open spec fn empty_offsets(b: BoardGrid, mv: Move, dr: int, dc: int, s: int, k: nat) -> Seq<int>
    decreases k,
{
    if k == 0 {
        Seq::empty()
    } else {
        let prev = empty_offsets(b, mv, dr, dc, s, (k - 1) as nat);
        if empty_at(b, line_r(mv, dr, s + k - 1), line_c(mv, dc, s + k - 1)) {
            prev.push(s + k - 1)
        } else {
            prev
        }
    }
}

/// Every offset follows the one before it by exactly one.
pub open spec fn contiguous(l: Seq<int>) -> bool {
    forall|i: int| 0 <= i < l.len() - 1 ==> #[trigger] l[i + 1] == l[i] + 1
}

/// The window of `w` squares from offset `s` is a broken three: all its
/// squares are on the board and free of the opponent, it holds `w - 2`
/// stones of `p` and two empty squares, and the stones are not all side by
/// side.
pub open spec fn broken_three_window(b: BoardGrid, mv: Move, p: Color, dr: int, dc: int, w: int, s: int) -> bool {
    &&& forall|q: int| s <= q < s + w ==> #[trigger] open_or_own(b, mv, p, dr, dc, q)
    &&& own_offsets(b, mv, p, dr, dc, s, w as nat).len() == (if w >= 2 {
        w - 2
    } else {
        0
    })
    &&& empty_offsets(b, mv, dr, dc, s, w as nat).len() == 2
    &&& !contiguous(own_offsets(b, mv, p, dr, dc, s, w as nat))
}

/// `m` is one of the two empty squares of the broken-three window at `s`
/// and filling it would make a run of at least `w - 1`.
pub open spec fn rest_of_window(b: BoardGrid, mv: Move, p: Color, dr: int, dc: int, w: int, s: int, m: Move) -> bool {
    &&& broken_three_window(b, mv, p, dr, dc, w, s)
    &&& exists|k: int|
        0 <= k < 2 && m.row == line_r(mv, dr, #[trigger] empty_offsets(b, mv, dr, dc, s, w as nat)[k])
            && m.col == line_c(mv, dc, empty_offsets(b, mv, dr, dc, s, w as nat)[k])
    &&& virtual_run_spec(b, m, p, dr, dc) >= w - 1
}

/// `m` is a rest square of a broken three of `p` through `mv`.
pub open spec fn is_rest_square(b: BoardGrid, mv: Move, p: Color, dr: int, dc: int, w: int, m: Move) -> bool {
    exists|s: int| 1 - w <= s <= 0 && #[trigger] rest_of_window(b, mv, p, dr, dc, w, s, m)
}

/// The offsets as integers.
pub open spec fn ints(v: Seq<isize>) -> Seq<int> {
    Seq::new(v.len(), |i: int| v[i] as int)
}

fn offsets_contiguous(v: &Vec<isize>) -> (r: bool)
    requires
        forall|i: int| 0 <= i < v.len() ==> -coord_span() <= #[trigger] v@[i] <= coord_span(),
    ensures
        r == contiguous(ints(v@)),
{
    if v.len() < 2 {
        return true;
    }
    let mut i: usize = 0;
    while i + 1 < v.len()
        invariant
            i + 1 <= v.len(),
            forall|j: int| 0 <= j < v.len() ==> -coord_span() <= #[trigger] v@[j] <= coord_span(),
            forall|j: int| 0 <= j < i ==> #[trigger] ints(v@)[j + 1] == ints(v@)[j] + 1,
        decreases v.len() - i,
    {
        if v[i + 1] != v[i] + 1 {
            assert(ints(v@)[i + 1] != ints(v@)[i as int] + 1);
            return false;
        }
        i += 1;
    }
    true
}

/// The rest squares of the window at offset `s`, if it is a broken three.
fn window_rests(
    board: &BoardGrid,
    mv: Move,
    player: Color,
    dr: isize,
    dc: isize,
    w: isize,
    s: isize,
) -> (r: Vec<Move>)
    requires
        board_ok(*board),
        dir_ok(dr, dc),
        mv.row < board.size,
        mv.col < board.size,
        1 <= w <= coord_limit(),
        1 - w <= s <= 0,
    ensures
        forall|m: Move| #[trigger]
            r@.contains(m) <==> rest_of_window(*board, mv, player, dr as int, dc as int, w as int, s as int, m),
{
    let ghost b = *board;
    let mut player_offsets: Vec<isize> = Vec::new();
    let mut empties: Vec<isize> = Vec::new();
    let mut blocked = false;
    let mut o: isize = s;
    while o < s + w && !blocked
        invariant
            board_ok(*board),
            b == *board,
            dir_ok(dr, dc),
            mv.row < board.size,
            mv.col < board.size,
            1 <= w <= coord_limit(),
            1 - w <= s <= 0,
            s <= o <= s + w,
            forall|j: int| 0 <= j < player_offsets.len() ==> s <= #[trigger] player_offsets@[j] < o,
            forall|j: int| 0 <= j < empties.len() ==> s <= #[trigger] empties@[j] < o,
            !blocked ==> forall|q: int| s <= q < o ==> #[trigger] open_or_own(b, mv, player, dr as int, dc as int, q),
            !blocked ==> ints(player_offsets@) == own_offsets(b, mv, player, dr as int, dc as int, s as int, (o - s) as nat),
            !blocked ==> ints(empties@) == empty_offsets(b, mv, dr as int, dc as int, s as int, (o - s) as nat),
            blocked ==> !open_or_own(b, mv, player, dr as int, dc as int, o as int) && s <= o < s + w,
        decreases s + w - o, (if blocked { 0int } else { 1int }),
    {
        let row = along_exec(mv.row as isize, dr, o);
        let col = along_exec(mv.col as isize, dc, o);
        assert(row as int == line_r(mv, dr as int, o as int));
        assert(col as int == line_c(mv, dc as int, o as int));
        let ghost po = player_offsets@;
        let ghost eo = empties@;
        if !in_bounds(board, row, col) {
            blocked = true;
        } else if has_color(board, row, col, player) {
            assert(own_at(b, mv, player, dr as int, dc as int, o as int));
            assert(open_or_own(b, mv, player, dr as int, dc as int, o as int));
            player_offsets.push(o);
            assert(ints(player_offsets@) =~= ints(po).push(o as int));
            assert(!empty_at(b, line_r(mv, dr as int, o as int), line_c(mv, dc as int, o as int)));
            o += 1;
        } else if is_empty_square(board, row, col) {
            assert(open_or_own(b, mv, player, dr as int, dc as int, o as int));
            assert(!own_at(b, mv, player, dr as int, dc as int, o as int));
            empties.push(o);
            assert(ints(empties@) =~= ints(eo).push(o as int));
            o += 1;
        } else {
            blocked = true;
        }
    }
    let mut rests: Vec<Move> = Vec::new();
    if blocked {
        assert forall|m: Move| !#[trigger] rest_of_window(b, mv, player, dr as int, dc as int, w as int, s as int, m) by {
            if rest_of_window(b, mv, player, dr as int, dc as int, w as int, s as int, m) {
                assert(open_or_own(b, mv, player, dr as int, dc as int, o as int));
            }
        }
        return rests;
    }
    let need: usize = if w >= 2 {
        (w - 2) as usize
    } else {
        0
    };
    if player_offsets.len() != need || empties.len() != 2 || offsets_contiguous(&player_offsets) {
        assert forall|m: Move| !#[trigger] rest_of_window(b, mv, player, dr as int, dc as int, w as int, s as int, m) by {}
        return rests;
    }
    assert(broken_three_window(b, mv, player, dr as int, dc as int, w as int, s as int));
    let ghost eos = empty_offsets(b, mv, dr as int, dc as int, s as int, w as nat);
    let mut k: usize = 0;
    while k < 2
        invariant
            board_ok(*board),
            b == *board,
            dir_ok(dr, dc),
            mv.row < board.size,
            mv.col < board.size,
            1 <= w <= coord_limit(),
            1 - w <= s <= 0,
            empties.len() == 2,
            ints(empties@) == eos,
            eos == empty_offsets(b, mv, dr as int, dc as int, s as int, w as nat),
            forall|j: int| 0 <= j < empties.len() ==> s <= #[trigger] empties@[j] < s + w,
            broken_three_window(b, mv, player, dr as int, dc as int, w as int, s as int),
            k <= 2,
            forall|m: Move| #[trigger]
                rests@.contains(m) <==> (exists|j: int|
                    0 <= j < k && m.row == line_r(mv, dr as int, #[trigger] eos[j]) && m.col == line_c(
                        mv,
                        dc as int,
                        eos[j],
                    )) && virtual_run_spec(b, m, player, dr as int, dc as int) >= w - 1,
        decreases 2 - k,
    {
        let off = empties[k];
        assert(eos[k as int] == off as int);
        assert(open_or_own(b, mv, player, dr as int, dc as int, off as int));
        let row = along_exec(mv.row as isize, dr, off);
        let col = along_exec(mv.col as isize, dc, off);
        let rest = Move { row: row as usize, col: col as usize };
        let len = virtual_run_len(board, rest, player, dr, dc);
        let ghost before = rests@;
        if len >= (w - 1) as usize {
            push_unique_move(&mut rests, rest);
        }
        assert forall|m: Move| #[trigger] rests@.contains(m) <==> (exists|j: int|
            0 <= j < k + 1 && m.row == line_r(mv, dr as int, #[trigger] eos[j]) && m.col == line_c(
                mv,
                dc as int,
                eos[j],
            )) && virtual_run_spec(b, m, player, dr as int, dc as int) >= w - 1 by {
            if rests@.contains(m) && !before.contains(m) {
                assert(m == rest);
            }
            if before.contains(m) {
                let q = choose|q: int| 0 <= q < before.len() && before[q] == m;
                if len >= (w - 1) as usize {
                    assert(rests@[q] == m);
                }
            }
            if (exists|j: int|
                0 <= j < k + 1 && m.row == line_r(mv, dr as int, #[trigger] eos[j]) && m.col == line_c(
                    mv,
                    dc as int,
                    eos[j],
                )) && virtual_run_spec(b, m, player, dr as int, dc as int) >= w - 1 {
                let j = choose|j: int|
                    0 <= j < k + 1 && m.row == line_r(mv, dr as int, #[trigger] eos[j]) && m.col == line_c(
                        mv,
                        dc as int,
                        eos[j],
                    );
                if j == k {
                    assert(m == rest);
                    if before.contains(m) {
                        let q = choose|q: int| 0 <= q < before.len() && before[q] == m;
                        assert(rests@[q] == m);
                    } else {
                        assert(rests@[before.len() as int] == m);
                    }
                }
            }
        }
        k += 1;
    }
    rests
}

/// The rest squares of the broken threes of `player` through `mv` along
/// the line `(dr, dc)`: the empty squares of such a window whose filling
/// would make a run of at least `win_length - 1`, sorted by row then
/// column.
pub fn broken_three_rest_squares_through_move(
    board: &BoardGrid,
    win_length: usize,
    mv: Move,
    player: Color,
    dr: isize,
    dc: isize,
) -> (r: Vec<Move>)
    requires
        board_ok(*board),
        dir_ok(dr, dc),
        mv.row < board.size,
        mv.col < board.size,
        win_length <= coord_limit(),
    ensures
        crate::lethal::strictly_sorted(r@),
        forall|m: Move| #[trigger]
            r@.contains(m) <==> is_rest_square(
                *board,
                mv,
                player,
                dr as int,
                dc as int,
                win_length as int,
                m,
            ),
{
    let ghost b = *board;
    let w = win_length as isize;
    let mut rest_squares: Vec<Move> = Vec::new();
    if w == 0 {
        assert forall|m: Move| !#[trigger] is_rest_square(b, mv, player, dr as int, dc as int, 0, m) by {}
        return rest_squares;
    }
    let mut s: isize = 1 - w;
    while s <= 0
        invariant
            board_ok(*board),
            b == *board,
            dir_ok(dr, dc),
            mv.row < board.size,
            mv.col < board.size,
            w == win_length,
            1 <= w <= coord_limit(),
            1 - w <= s <= 1,
            forall|m: Move| #[trigger]
                rest_squares@.contains(m) <==> exists|s2: int|
                    1 - w <= s2 < s && #[trigger] rest_of_window(b, mv, player, dr as int, dc as int, w as int, s2, m),
        decreases 1 - s,
    {
        let found = window_rests(board, mv, player, dr, dc, w, s);
        let ghost before = rest_squares@;
        let mut k: usize = 0;
        while k < found.len()
            invariant
                k <= found.len(),
                forall|m: Move| #[trigger]
                    rest_squares@.contains(m) <==> before.contains(m) || found@.take(k as int).contains(m),
            decreases found.len() - k,
        {
            let ghost mid = rest_squares@;
            let x = found[k];
            push_unique_move(&mut rest_squares, x);
            assert forall|m: Move| #[trigger] rest_squares@.contains(m) <==> before.contains(m)
                || found@.take(k + 1).contains(m) by {
                let t0 = found@.take(k as int);
                let t1 = found@.take(k + 1);
                assert(t1 =~= t0.push(x));
                assert(mid.contains(m) <==> before.contains(m) || t0.contains(m));
                if t1.contains(m) {
                    let q = choose|q: int| 0 <= q < t1.len() && #[trigger] t1[q] == m;
                    if q < k {
                        assert(t0[q] == m);
                    }
                }
                if t0.contains(m) {
                    let q = choose|q: int| 0 <= q < t0.len() && #[trigger] t0[q] == m;
                    assert(t1[q] == m);
                }
                if m == x {
                    assert(t1[k as int] == m);
                }
                if rest_squares@.contains(m) {
                    let q = choose|q: int| 0 <= q < rest_squares@.len() && #[trigger] rest_squares@[q] == m;
                    if q < mid.len() {
                        assert(mid[q] == m);
                    }
                }
                if mid.contains(m) {
                    let q = choose|q: int| 0 <= q < mid.len() && #[trigger] mid[q] == m;
                    assert(rest_squares@[q] == m);
                }
                if m == x && !mid.contains(x) {
                    assert(rest_squares@[mid.len() as int] == m);
                }
            }
            k += 1;
        }
        assert(found@.take(found.len() as int) =~= found@);
        assert forall|m: Move| #[trigger] rest_squares@.contains(m) <==> exists|s2: int|
            1 - w <= s2 < s + 1 && #[trigger] rest_of_window(b, mv, player, dr as int, dc as int, w as int, s2, m) by {
            if exists|s2: int|
                1 - w <= s2 < s + 1 && #[trigger] rest_of_window(b, mv, player, dr as int, dc as int, w as int, s2, m) {
                let s2 = choose|s2: int|
                    1 - w <= s2 < s + 1 && #[trigger] rest_of_window(b, mv, player, dr as int, dc as int, w as int, s2, m);
                if s2 == s {
                    assert(found@.contains(m));
                }
            }
        }
        s += 1;
    }
    let ghost unsorted = rest_squares@;
    crate::lethal::normalize_moves(&mut rest_squares);
    assert forall|m: Move| #[trigger] rest_squares@.contains(m) <==> is_rest_square(
        b,
        mv,
        player,
        dr as int,
        dc as int,
        win_length as int,
        m,
    ) by {
        assert(rest_squares@.contains(m) == unsorted.contains(m));
    }
    rest_squares
}

/// The broken-four fact through `mv`, if there is one: its only completion
/// square is the defense.
pub fn broken_four_fact_through_move(
    board: &BoardGrid,
    win_length: usize,
    mv: Move,
    player: Color,
    dr: isize,
    dc: isize,
) -> (r: Option<LocalThreatFact>)
    requires
        board_ok(*board),
        dir_ok(dr, dc),
        mv.row < board.size,
        mv.col < board.size,
        win_length <= coord_limit(),
    ensures
        match r {
            Some(f) => f.kind == LocalThreatKind::BrokenFour && f.defense_squares@.len() == 1
                && is_four_completion(
                *board,
                mv,
                player,
                dr as int,
                dc as int,
                win_length as int,
                f.defense_squares@[0],
            ) && (forall|m: Move|
                #[trigger] is_four_completion(*board, mv, player, dr as int, dc as int, win_length as int, m)
                    ==> m == f.defense_squares@[0]) && run_len_spec(
                *board,
                mv,
                player,
                dr as int,
                dc as int,
            ) < win_length - 1,
            None => !(exists|m: Move|
                #[trigger] is_four_completion(*board, mv, player, dr as int, dc as int, win_length as int, m)
                    && forall|m2: Move|
                    is_four_completion(*board, mv, player, dr as int, dc as int, win_length as int, m2)
                        ==> m2 == m) || run_len_spec(*board, mv, player, dr as int, dc as int)
                >= win_length - 1,
        },
{
    let completions = four_completion_squares_through_move(board, win_length, mv, player, dr, dc);
    if completions.len() == 1 {
        let run = contiguous_run_len_through_move(board, mv, player, dr, dc);
        assert(completions@.contains(completions@[0]));
        if run + 1 < win_length {
            assert forall|m: Move|
                #[trigger] is_four_completion(*board, mv, player, dr as int, dc as int, win_length as int, m)
                    implies m == completions@[0] by {
                assert(completions@.contains(m));
            }
            return Some(LocalThreatFact { kind: LocalThreatKind::BrokenFour, defense_squares: completions });
        }
        return None;
    }
    assert forall|m: Move|
        #[trigger] is_four_completion(*board, mv, player, dr as int, dc as int, win_length as int, m) implies
        !(forall|m2: Move|
            is_four_completion(*board, mv, player, dr as int, dc as int, win_length as int, m2) ==> m2 == m) by {
        assert(completions@.contains(m));
        let q = choose|q: int| 0 <= q < completions.len() && completions@[q] == m;
        if completions.len() >= 2 {
            let other = if q == 0 { 1int } else { 0int };
            assert(completions@.contains(completions@[other]));
            assert(crate::lethal::move_before(completions@[0], completions@[1]));
            assert(completions@[other] != m);
        }
    }
    None
}

/// The broken-three fact through `mv`, if there is one: its rest squares
/// are the defenses.
pub fn broken_three_fact_through_move(
    board: &BoardGrid,
    win_length: usize,
    mv: Move,
    player: Color,
    dr: isize,
    dc: isize,
) -> (r: Option<LocalThreatFact>)
    requires
        board_ok(*board),
        dir_ok(dr, dc),
        mv.row < board.size,
        mv.col < board.size,
        win_length <= coord_limit(),
    ensures
        match r {
            Some(f) => f.kind == LocalThreatKind::BrokenThree && f.defense_squares@.len() > 0
                && crate::lethal::strictly_sorted(f.defense_squares@) && forall|m: Move| #[trigger]
                f.defense_squares@.contains(m) <==> is_rest_square(
                    *board,
                    mv,
                    player,
                    dr as int,
                    dc as int,
                    win_length as int,
                    m,
                ),
            None => forall|m: Move|
                !#[trigger] is_rest_square(*board, mv, player, dr as int, dc as int, win_length as int, m),
        },
{
    let rest_squares = broken_three_rest_squares_through_move(board, win_length, mv, player, dr, dc);
    if rest_squares.len() == 0 {
        assert forall|m: Move|
            !#[trigger] is_rest_square(*board, mv, player, dr as int, dc as int, win_length as int, m) by {
            if is_rest_square(*board, mv, player, dr as int, dc as int, win_length as int, m) {
                assert(rest_squares@.contains(m));
            }
        }
        return None;
    }
    Some(LocalThreatFact { kind: LocalThreatKind::BrokenThree, defense_squares: rest_squares })
}

/// The length of the run of `p` stones starting at `start` in direction
/// `(dr, dc)` (zero when `start` holds no such stone).
pub open spec fn run_from_spec(b: BoardGrid, start: Move, p: Color, dr: int, dc: int) -> int {
    if color_at(b, start.row as int, start.col as int, p) {
        1int + ray(b, start.row as int, start.col as int, p, dr, dc, b.size as nat)
    } else {
        0
    }
}

/// The threat a run starting at `start` makes: four stones open at both
/// ends (open four, both ends defend), four open at one end (closed four,
/// that end defends), or three open at both ends (open three, both ends
/// defend).
pub open spec fn fact_from_run_spec(b: BoardGrid, start: Move, p: Color, dr: int, dc: int) -> Option<
    (LocalThreatKind, Seq<Move>),
> {
    let len = run_from_spec(b, start, p, dr, dc);
    let br = along(start.row as int, dr, -1);
    let bc = along(start.col as int, dc, -1);
    let ar = along(start.row as int, dr, len);
    let ac = along(start.col as int, dc, len);
    let bo = empty_at(b, br, bc);
    let ao = empty_at(b, ar, ac);
    let before = Move { row: br as usize, col: bc as usize };
    let after = Move { row: ar as usize, col: ac as usize };
    if len == 4 && bo && ao {
        Some((LocalThreatKind::OpenFour, seq![before, after]))
    } else if len == 4 && bo {
        Some((LocalThreatKind::ClosedFour, seq![before]))
    } else if len == 4 && ao {
        Some((LocalThreatKind::ClosedFour, seq![after]))
    } else if len == 3 && bo && ao {
        Some((LocalThreatKind::OpenThree, seq![before, after]))
    } else {
        None
    }
}

/// The threat made by the run of `player` stones starting at `start` in
/// direction `(dr, dc)`, if it is an open or closed four or an open three.
pub fn local_threat_fact_from_run_start(
    board: &BoardGrid,
    start: Move,
    player: Color,
    dr: isize,
    dc: isize,
) -> (r: Option<LocalThreatFact>)
    requires
        board_ok(*board),
        dir_ok(dr, dc),
        start.row < board.size,
        start.col < board.size,
    ensures
        match r {
            Some(f) => fact_from_run_spec(*board, start, player, dr as int, dc as int) == Some(
                (f.kind, f.defense_squares@),
            ),
            None => fact_from_run_spec(*board, start, player, dr as int, dc as int) is None,
        },
{
    let len: usize = if has_color(board, start.row as isize, start.col as isize, player) {
        1 + count_player_from_move(board, start, player, dr, dc)
    } else {
        0
    };
    let br = along_exec(start.row as isize, dr, -1);
    let bc = along_exec(start.col as isize, dc, -1);
    let ar = along_exec(start.row as isize, dr, len as isize);
    let ac = along_exec(start.col as isize, dc, len as isize);
    let before_open = is_empty_square(board, br, bc);
    let after_open = is_empty_square(board, ar, ac);
    let before = Move { row: br as usize, col: bc as usize };
    let after = Move { row: ar as usize, col: ac as usize };
    if len == 4 && before_open && after_open {
        Some(LocalThreatFact { kind: LocalThreatKind::OpenFour, defense_squares: vec![before, after] })
    } else if len == 4 && before_open {
        Some(LocalThreatFact { kind: LocalThreatKind::ClosedFour, defense_squares: vec![before] })
    } else if len == 4 && after_open {
        Some(LocalThreatFact { kind: LocalThreatKind::ClosedFour, defense_squares: vec![after] })
    } else if len == 3 && before_open && after_open {
        Some(LocalThreatFact { kind: LocalThreatKind::OpenThree, defense_squares: vec![before, after] })
    } else {
        None
    }
}

fn moves_eq(a: &Vec<Move>, b: &Vec<Move>) -> (r: bool)
    ensures
        r == (a@ == b@),
{
    if a.len() != b.len() {
        return false;
    }
    let mut i: usize = 0;
    while i < a.len()
        invariant
            i <= a.len(),
            a.len() == b.len(),
            forall|j: int| 0 <= j < i ==> a@[j] == b@[j],
        decreases a.len() - i,
    {
        if a[i] != b[i] {
            return false;
        }
        i += 1;
    }
    assert(a@ =~= b@);
    true
}

/// A fact by its kind and defense squares.
pub open spec fn fact_view(f: LocalThreatFact) -> (LocalThreatKind, Seq<Move>) {
    (f.kind, f.defense_squares@)
}

/// The facts by their kinds and defense squares.
pub open spec fn facts_view(v: Seq<LocalThreatFact>) -> Seq<(LocalThreatKind, Seq<Move>)> {
    Seq::new(v.len(), |i: int| fact_view(v[i]))
}

/// Appends `fact` unless an equal fact is present already.
pub fn push_unique_fact(facts: &mut Vec<LocalThreatFact>, fact: LocalThreatFact)
    ensures
        facts_view(final(facts)@) == (if facts_view(old(facts)@).contains(fact_view(fact)) {
            facts_view(old(facts)@)
        } else {
            facts_view(old(facts)@).push(fact_view(fact))
        }),
{
    let ghost start = facts@;
    let mut i: usize = 0;
    while i < facts.len()
        invariant
            i <= facts.len(),
            facts@ == start,
            start == old(facts)@,
            forall|j: int| 0 <= j < i ==> facts_view(start)[j] != fact_view(fact),
        decreases facts.len() - i,
    {
        if facts[i].kind == fact.kind && moves_eq(&facts[i].defense_squares, &fact.defense_squares) {
            assert(facts_view(start)[i as int] == fact_view(fact));
            return;
        }
        i += 1;
    }
    let ghost fv = fact_view(fact);
    facts.push(fact);
    assert(facts_view(facts@) =~= facts_view(start).push(fv));
}

/// The most local threats, and the most replies to them, for which the
/// hybrid defense still tries the local replies.
pub const MAX_HYBRID_LOCAL_THREAT_COUNT: usize = 2;

/// See `MAX_HYBRID_LOCAL_THREAT_COUNT`.
pub const MAX_HYBRID_LOCAL_THREAT_REPLIES: usize = 8;

/// The hybrid defense tries the local threat replies when there are one or
/// two local threats and between one and eight replies to them.
pub open spec fn use_hybrid_spec(threat: ThreatReplySet) -> bool {
    1 <= threat.local_threat_count <= MAX_HYBRID_LOCAL_THREAT_COUNT
        && threat.local_threat_replies@.len() > 0
        && threat.local_threat_replies@.len() <= MAX_HYBRID_LOCAL_THREAT_REPLIES
}

/// Whether the hybrid defense adds the local threat replies.
pub fn use_hybrid_local_threat_replies(threat: &ThreatReplySet) -> (r: bool)
    ensures
        r == use_hybrid_spec(*threat),
{
    1 <= threat.local_threat_count && threat.local_threat_count <= MAX_HYBRID_LOCAL_THREAT_COUNT
        && threat.local_threat_replies.len() > 0
        && threat.local_threat_replies.len() <= MAX_HYBRID_LOCAL_THREAT_REPLIES
}

/// The defender replies a proof node tries under a defense policy:
/// every legal move with the threat replies first; only the threat
/// replies; or the threat replies with the local threat replies added when
/// the hybrid rule allows, falling back to every legal move when that
/// leaves nothing.
pub open spec fn defender_replies_spec(
    policy: DefensePolicy,
    threat: ThreatReplySet,
    legal_moves: Seq<Move>,
) -> Seq<Move> {
    match policy {
        DefensePolicy::AllLegalDefense => tactical_first_spec(threat.reply_moves@, legal_moves),
        DefensePolicy::TacticalDefense => threat.reply_moves@,
        DefensePolicy::HybridDefense => {
            let tactical = if use_hybrid_spec(threat) {
                extend_unique_spec(threat.reply_moves@, threat.local_threat_replies@)
            } else {
                threat.reply_moves@
            };
            if tactical.len() == 0 {
                legal_moves
            } else {
                tactical
            }
        },
    }
}

/// The defender replies to try at a proof node, given the legal moves of
/// the position.
pub fn defender_reply_moves(
    options: &AnalysisOptions,
    threat: &ThreatReplySet,
    legal_moves: Vec<Move>,
) -> (r: Vec<Move>)
    ensures
        r@ == defender_replies_spec(options.defense_policy, *threat, legal_moves@),
{
    match options.defense_policy {
        DefensePolicy::AllLegalDefense => {
            tactical_first_moves(copy_move_vec(&threat.reply_moves), legal_moves)
        },
        DefensePolicy::TacticalDefense => copy_move_vec(&threat.reply_moves),
        DefensePolicy::HybridDefense => {
            let mut tactical = copy_move_vec(&threat.reply_moves);
            if use_hybrid_local_threat_replies(threat) {
                extend_unique_moves(&mut tactical, threat.local_threat_replies.as_slice());
            }
            if tactical.len() == 0 {
                legal_moves
            } else {
                tactical
            }
        },
    }
}

fn copy_move_vec(v: &Vec<Move>) -> (r: Vec<Move>)
    ensures
        r@ == v@,
{
    crate::board::copy_moves(v.as_slice())
}

/// `acc` with each square of `squares` that is in `legal` appended, unless
/// already present.
pub open spec fn add_legal_unique(acc: Seq<Move>, squares: Seq<Move>, legal: Seq<Move>) -> Seq<Move>
    decreases squares.len(),
{
    if squares.len() == 0 {
        acc
    } else {
        let a = add_legal_unique(acc, squares.drop_last(), legal);
        let m = squares.last();
        if legal.contains(m) && !a.contains(m) {
            a.push(m)
        } else {
            a
        }
    }
}

/// The legal defense squares of the facts, in order, without repeats
/// (every local threat kind is forcing, so every fact counts).
pub open spec fn local_replies_spec(facts: Seq<LocalThreatFact>, legal: Seq<Move>) -> Seq<Move>
    decreases facts.len(),
{
    if facts.len() == 0 {
        Seq::empty()
    } else {
        add_legal_unique(local_replies_spec(facts.drop_last(), legal), facts.last().defense_squares@, legal)
    }
}

fn contains_move(v: &[Move], m: Move) -> (r: bool)
    ensures
        r == v@.contains(m),
{
    let mut i: usize = 0;
    while i < v.len()
        invariant
            i <= v.len(),
            forall|j: int| 0 <= j < i ==> v@[j] != m,
        decreases v.len() - i,
    {
        if v[i] == m {
            assert(v@[i as int] == m);
            return true;
        }
        i += 1;
    }
    false
}

/// The defender's answers to the forcing local threats: each defense
/// square that is legal for the defender (a member of `defender_legal`),
/// in order, once.
pub fn local_threat_reply_moves(defender_legal: &[Move], local_threats: &[LocalThreatFact]) -> (r:
    Vec<Move>)
    ensures
        r@ == local_replies_spec(local_threats@, defender_legal@),
{
    let mut replies: Vec<Move> = Vec::new();
    let mut i: usize = 0;
    while i < local_threats.len()
        invariant
            i <= local_threats.len(),
            replies@ == local_replies_spec(local_threats@.take(i as int), defender_legal@),
        decreases local_threats.len() - i,
    {
        assert(local_threats@.take(i + 1).drop_last() =~= local_threats@.take(i as int));
        assert(local_threats@.take(i + 1).last() == local_threats@[i as int]);
        let fact = &local_threats[i];
        if fact.kind.is_forcing() {
            let ghost start = replies@;
            let squares = &fact.defense_squares;
            let mut j: usize = 0;
            while j < squares.len()
                invariant
                    j <= squares.len(),
                    replies@ == add_legal_unique(start, squares@.take(j as int), defender_legal@),
                decreases squares.len() - j,
            {
                assert(squares@.take(j + 1).drop_last() =~= squares@.take(j as int));
                assert(squares@.take(j + 1).last() == squares@[j as int]);
                let m = squares[j];
                if contains_move(defender_legal, m) {
                    push_unique_move(&mut replies, m);
                }
                j += 1;
            }
            assert(squares@.take(squares.len() as int) =~= squares@);
        }
        i += 1;
    }
    assert(local_threats@.take(local_threats.len() as int) =~= local_threats@);
    replies
}

/// The replies a corridor node tries: the legal cost squares, then the
/// defender's own immediate wins; when the attacker has no winning square
/// yet, also the local threat replies (hybrid defense, when the hybrid rule
/// allows) and the attacker's next actual corridor move, each once.
pub open spec fn corridor_replies_spec(
    policy: DefensePolicy,
    threat: ThreatReplySet,
    next_actual: Option<Move>,
) -> Seq<Move> {
    let base = extend_unique_spec(
        extend_unique_spec(Seq::empty(), threat.legal_cost_squares@),
        threat.defender_immediate_wins@,
    );
    if threat.winning_squares@.len() == 0 {
        let with_local = if policy == DefensePolicy::HybridDefense && use_hybrid_spec(threat) {
            extend_unique_spec(base, threat.local_threat_replies@)
        } else {
            base
        };
        match next_actual {
            Some(m) => extend_unique_spec(with_local, seq![m]),
            None => with_local,
        }
    } else {
        base
    }
}

/// The defender replies a corridor node tries; `next_actual` is the
/// attacker's next move in the game when it continues the corridor.
pub fn corridor_defender_reply_moves(
    options: &AnalysisOptions,
    threat: &ThreatReplySet,
    next_actual: Option<Move>,
) -> (r: Vec<Move>)
    ensures
        r@ == corridor_replies_spec(options.defense_policy, *threat, next_actual),
{
    let mut replies: Vec<Move> = Vec::new();
    extend_unique_moves(&mut replies, threat.legal_cost_squares.as_slice());
    extend_unique_moves(&mut replies, threat.defender_immediate_wins.as_slice());
    if threat.winning_squares.len() == 0 {
        if options.defense_policy == DefensePolicy::HybridDefense
            && use_hybrid_local_threat_replies(threat) {
            extend_unique_moves(&mut replies, threat.local_threat_replies.as_slice());
        }
        match next_actual {
            Some(m) => {
                let ghost before = replies@;
                push_unique_move(&mut replies, m);
                proof {
                    let one = seq![m];
                    assert(one.drop_last() =~= Seq::<Move>::empty());
                    assert(extend_unique_spec(before, one.drop_last()) == before);
                }
            },
            None => {},
        }
    }
    replies
}

/// Putting the tactical moves first only reorders: the result holds
/// exactly the moves of `all_moves`, each once, and its first moves are
/// the priority moves that are among them, in priority order.
pub proof fn law_tactical_first_reorders_only(priority: Seq<Move>, all_moves: Seq<Move>)
    ensures
        tactical_first_spec(priority, all_moves).no_duplicates(),
        forall|m: Move| #[trigger]
            tactical_first_spec(priority, all_moves).contains(m) <==> all_moves.contains(m),
        ({
            let head = extend_unique_spec(Seq::empty(), priority.filter(|m: Move| all_moves.contains(m)));
            tactical_first_spec(priority, all_moves).subrange(0, head.len() as int) == head
        }),
{
    let filtered = priority.filter(|m: Move| all_moves.contains(m));
    let empty = Seq::<Move>::empty();
    assert(empty.no_duplicates());
    law_extend_unique_keeps_moves_distinct(empty, filtered);
    let head = extend_unique_spec(empty, filtered);
    law_extend_unique_keeps_moves_distinct(head, all_moves);
    assert forall|m: Move| #[trigger] tactical_first_spec(priority, all_moves).contains(m)
        <==> all_moves.contains(m) by {
        if filtered.contains(m) {
            let k = choose|k: int| 0 <= k < filtered.len() && filtered[k] == m;
            priority.lemma_filter_pred(|m: Move| all_moves.contains(m), k);
        }
    }
    lemma_extend_unique_keeps_prefix(head, all_moves);
}

proof fn lemma_extend_unique_keeps_prefix(target: Seq<Move>, moves: Seq<Move>)
    ensures
        extend_unique_spec(target, moves).len() >= target.len(),
        extend_unique_spec(target, moves).subrange(0, target.len() as int) == target,
    decreases moves.len(),
{
    if moves.len() > 0 {
        lemma_extend_unique_keeps_prefix(target, moves.drop_last());
        let p = extend_unique_spec(target, moves.drop_last());
        if !p.contains(moves.last()) {
            assert(p.push(moves.last()).subrange(0, target.len() as int) =~= p.subrange(
                0,
                target.len() as int,
            ));
        }
    } else {
        assert(target.subrange(0, target.len() as int) =~= target);
    }
}

} // verus!

verus! {

/// A run of exactly `k` stones after `(r, c)`, with the square after them
/// not holding one, is read as `k` by a look-ahead longer than the run.
proof fn lemma_ray_exact(b: BoardGrid, r: int, c: int, p: Color, dr: int, dc: int, fuel: nat, k: nat)
    requires
        fuel > k,
        forall|i: int| 1 <= i <= k ==> #[trigger] color_at(b, along(r, dr, i), along(c, dc, i), p),
        !color_at(b, along(r, dr, k + 1int), along(c, dc, k + 1int), p),
    ensures
        ray(b, r, c, p, dr, dc, fuel) == k,
    decreases k,
{
    let r1 = along(r, dr, 1);
    let c1 = along(c, dc, 1);
    if k == 0 {
        assert(!color_at(b, r1, c1, p));
    } else {
        assert(color_at(b, along(r, dr, 1), along(c, dc, 1), p));
        assert forall|i: int| 1 <= i <= k - 1 implies #[trigger] color_at(
            b,
            along(r1, dr, i),
            along(c1, dc, i),
            p,
        ) by {
            assert(along(r1, dr, i) == along(r, dr, i + 1));
            assert(along(c1, dc, i) == along(c, dc, i + 1));
            assert(color_at(b, along(r, dr, i + 1), along(c, dc, i + 1), p));
        }
        assert(along(r1, dr, k as int) == along(r, dr, k + 1int));
        assert(along(c1, dc, k as int) == along(c, dc, k + 1int));
        lemma_ray_exact(b, r1, c1, p, dr, dc, (fuel - 1) as nat, (k - 1) as nat);
    }
}

/// Law: a run of exactly four or three stones of a player, read from its
/// first stone, makes the threat its two ends allow. With four stones: both
/// ends empty is an open four answered at both ends; only the square before
/// the run empty is a closed four answered there; only the square after the
/// run empty is a closed four answered there; neither empty is no threat.
/// With three stones: an open three, answered at both ends, exactly when
/// both ends are empty, and no threat otherwise.
pub proof fn law_run_threat_follows_its_open_ends(
    b: BoardGrid,
    start: Move,
    p: Color,
    dr: isize,
    dc: isize,
    n: int,
)
    requires
        board_ok(b),
        dir_ok(dr, dc),
        start.row < b.size,
        start.col < b.size,
        n == 3 || n == 4,
        forall|i: int|
            0 <= i < n ==> #[trigger] color_at(
                b,
                along(start.row as int, dr as int, i),
                along(start.col as int, dc as int, i),
                p,
            ),
        !color_at(b, along(start.row as int, dr as int, n), along(start.col as int, dc as int, n), p),
    ensures
        ({
            let br = along(start.row as int, dr as int, -1);
            let bc = along(start.col as int, dc as int, -1);
            let ar = along(start.row as int, dr as int, n);
            let ac = along(start.col as int, dc as int, n);
            let before = Move { row: br as usize, col: bc as usize };
            let after = Move { row: ar as usize, col: ac as usize };
            let f = fact_from_run_spec(b, start, p, dr as int, dc as int);
            &&& n == 4 && empty_at(b, br, bc) && empty_at(b, ar, ac) ==> f == Some(
                (LocalThreatKind::OpenFour, seq![before, after]),
            )
            &&& n == 4 && empty_at(b, br, bc) && !empty_at(b, ar, ac) ==> f == Some(
                (LocalThreatKind::ClosedFour, seq![before]),
            )
            &&& n == 4 && !empty_at(b, br, bc) && empty_at(b, ar, ac) ==> f == Some(
                (LocalThreatKind::ClosedFour, seq![after]),
            )
            &&& n == 4 && !empty_at(b, br, bc) && !empty_at(b, ar, ac) ==> f is None
            &&& n == 3 && empty_at(b, br, bc) && empty_at(b, ar, ac) ==> f == Some(
                (LocalThreatKind::OpenThree, seq![before, after]),
            )
            &&& n == 3 && !(empty_at(b, br, bc) && empty_at(b, ar, ac)) ==> f is None
        }),
{
    let r = start.row as int;
    let c = start.col as int;
    assert(color_at(b, along(r, dr as int, 0), along(c, dc as int, 0), p));
    assert(color_at(b, r, c, p));
    assert(color_at(b, along(r, dr as int, n - 1), along(c, dc as int, n - 1), p));
    lemma_steps_on_board(b, r, c, dr as int, dc as int, n - 1);
    assert forall|i: int| 1 <= i <= n - 1 implies #[trigger] color_at(
        b,
        along(r, dr as int, i),
        along(c, dc as int, i),
        p,
    ) by {
        assert(color_at(b, along(r, dr as int, i), along(c, dc as int, i), p));
    }
    lemma_ray_exact(b, r, c, p, dr as int, dc as int, b.size as nat, (n - 1) as nat);
    assert(run_from_spec(b, start, p, dr as int, dc as int) == n);
}

} // verus!
