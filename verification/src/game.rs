//! Turn and selection controller.
//!
//! The controller consumes board-square clicks, one per input cycle.  A
//! first click picks up a piece of the side to move; a second click asks the
//! validator whether that piece may go to the clicked square, and on a legal
//! move applies capture, position update and turn switch in one step.
//! Capturing the opposing king decides the game; a decided game accepts no
//! further input.

use crate::board::{
    find_occupant_index, find_piece_index, id_lookup, lemma_id_exists, square_in_range,
    start_layout, valid_piece_list, BoardState, PlayerTurn, Square,
};
use crate::pieces::{
    distinct_ids, distinct_squares, lemma_occupant_exists, lemma_occupant_unique, occupant_of,
    other_color, piece_at, valid_move, Piece, PieceColor, PieceType,
};
use vstd::pervasive::VecAdditionalExecFns;
use vstd::prelude::*;
use vstd::string::StringExecFns;

verus! {

/// What the controller holds between clicks: nothing, or the identifier of
/// the piece picked up by the first click.
#[derive(Clone, Copy, PartialEq, Eq, Structural, Debug)]
pub enum SelectionState {
    Idle,
    PieceSelected(u32),
}

/// The controller's verdict on one click.
#[derive(Clone, Copy, PartialEq, Eq, Structural, Debug)]
pub enum ClickOutcome {
    /// The game is already decided; the click was not processed.
    GameOver,
    /// The click named a square off the 8x8 grid; nothing changed.
    InvalidSquare,
    /// The click missed the board; any selection was cleared.
    MissedBoard,
    /// While idle, the click hit no piece of the side to move; nothing
    /// changed.
    Ignored,
    /// The clicked piece of the side to move is now selected.
    Selected,
    /// The selected piece moved, capturing any piece on the target; the turn
    /// passed to the other side.
    Moved,
    /// The selected piece captured the opposing king; the mover's color won.
    Won,
    /// The validator refused the move; the selection was cleared and nothing
    /// else changed.
    Illegal,
}

/// The whole game: board, selection, side to move, and the decided outcome.
pub struct GameState {
    pub board: BoardState,
    pub selection: SelectionState,
    pub turn: PieceColor,
    pub outcome: Option<PieceColor>,
}

/// The record of `p` once it stands on `sq`.
pub open spec fn moved_piece(p: Piece, sq: Square) -> Piece {
    Piece { x: sq.x, y: sq.y, ..p }
}

/// How a legal move of `p` to `sq` turns the board `pre` into `post`: any
/// piece standing on `sq` is captured, `p` now stands on `sq`, and every
/// other piece is untouched.
pub open spec fn board_after_move(pre: Seq<Piece>, post: Seq<Piece>, p: Piece, sq: Square) -> bool {
    &&& post.contains(moved_piece(p, sq))
    &&& forall|q: Piece|
        #[trigger] pre.contains(q) && q.id != p.id && !piece_at(q, sq.x as int, sq.y as int)
            ==> post.contains(q)
    &&& forall|q: Piece|
        #[trigger] post.contains(q) ==> q == moved_piece(p, sq) || (pre.contains(q) && q.id != p.id
            && !piece_at(q, sq.x as int, sq.y as int))
    &&& post.len() == pre.len() - (if occupant_of(pre, sq.x as int, sq.y as int) is Some {
        1int
    } else {
        0int
    })
}

/// `post` equals `pre` in every field but the selection, which now holds
/// `sel`.
pub open spec fn same_but_selection(pre: GameState, post: GameState, sel: SelectionState) -> bool {
    &&& post.board == pre.board
    &&& post.turn == pre.turn
    &&& post.outcome == pre.outcome
    &&& post.selection == sel
}

/// After a first click on `sq`: the occupant is picked up when it belongs to
/// the side to move; any other click changes nothing.  Board, turn and
/// outcome are untouched either way.
pub open spec fn idle_click_post(pre: GameState, sq: Square, post: GameState, r: ClickOutcome) -> bool {
    match occupant_of(pre.board.pieces@, sq.x as int, sq.y as int) {
        Some(p) => if p.color == pre.turn {
            same_but_selection(pre, post, SelectionState::PieceSelected(p.id)) && r
                == ClickOutcome::Selected
        } else {
            post == pre && r == ClickOutcome::Ignored
        },
        None => post == pre && r == ClickOutcome::Ignored,
    }
}

/// After a second click on `sq` with the piece `id` selected: the validator
/// decides.  A legal move captures any occupant of `sq`, moves the piece,
/// decides the game when the occupant was the opposing king, and passes the
/// turn.  An illegal one only clears the selection.
pub open spec fn attempt_post(pre: GameState, id: u32, sq: Square, post: GameState, r: ClickOutcome) -> bool {
    match id_lookup(pre.board.pieces@, id) {
        None => true,  // ruled out by well-formedness
        Some(p) => if valid_move(p, sq.x as int, sq.y as int, pre.board.pieces@) {
            let captured = occupant_of(pre.board.pieces@, sq.x as int, sq.y as int);
            let king_taken = captured matches Some(c) && c.piece_type == PieceType::King;
            &&& board_after_move(pre.board.pieces@, post.board.pieces@, p, sq)
            &&& post.selection is Idle
            &&& post.turn == other_color(pre.turn)
            &&& post.outcome == (if king_taken {
                Some(pre.turn)
            } else {
                pre.outcome
            })
            &&& r == (if king_taken {
                ClickOutcome::Won
            } else {
                ClickOutcome::Moved
            })
        } else {
            same_but_selection(pre, post, SelectionState::Idle) && r == ClickOutcome::Illegal
        },
    }
}

/// Applying a move at the sequence level keeps the board well formed and
/// realises `board_after_move`: the mover's record is updated in place and
/// the occupant of the target, if any, is removed.
proof fn lemma_move_effect(pre: Seq<Piece>, k: int, jo: Option<int>, sq: Square)
    requires
        valid_piece_list(pre),
        square_in_range(sq),
        0 <= k < pre.len(),
        !piece_at(pre[k], sq.x as int, sq.y as int),
        match jo {
            Some(j) => 0 <= j < pre.len() && piece_at(pre[j], sq.x as int, sq.y as int),
            None => occupant_of(pre, sq.x as int, sq.y as int) is None,
        },
    ensures
        ({
            let upd = pre.update(k, moved_piece(pre[k], sq));
            let post = match jo {
                Some(j) => upd.remove(j),
                None => upd,
            };
            board_after_move(pre, post, pre[k], sq) && valid_piece_list(post)
        }),
{
    let x = sq.x as int;
    let y = sq.y as int;
    let p = pre[k];
    let moved = moved_piece(p, sq);
    let upd = pre.update(k, moved);
    lemma_occupant_exists(pre, x, y);
    match jo {
        None => {
            let post = upd;
            assert forall|i: int| 0 <= i < pre.len() implies !piece_at(#[trigger] pre[i], x, y) by {}
            assert(post.contains(moved)) by {
                assert(post[k] == moved);
            }
            assert forall|q: Piece|
                #[trigger] pre.contains(q) && q.id != p.id && !piece_at(q, x, y) implies post.contains(
                q,
            ) by {
                let i = choose|i: int| 0 <= i < pre.len() && pre[i] == q;
                assert(i != k);
                assert(post[i] == q);
            }
            assert forall|q: Piece| #[trigger] post.contains(q) implies (q == moved || (pre.contains(
                q,
            ) && q.id != p.id && !piece_at(q, x, y))) by {
                let m = choose|m: int| 0 <= m < post.len() && post[m] == q;
                if m != k {
                    assert(post[m] == pre[m]);
                    assert(pre.contains(q)) by {
                        assert(pre[m] == q);
                    }
                    assert(pre[m].id != pre[k].id);
                }
            }
            assert forall|i: int| 0 <= i < post.len() implies (#[trigger] post[i]).x < 8
                && post[i].y < 8 by {
                if i != k {
                    assert(post[i] == pre[i]);
                }
            }
            assert forall|a: int, b: int|
                0 <= a < post.len() && 0 <= b < post.len() && a != b implies !(#[trigger] post[a].x
                == #[trigger] post[b].x && post[a].y == post[b].y) by {
                if a == k {
                    assert(post[b] == pre[b]);
                    assert(!piece_at(pre[b], x, y));
                } else if b == k {
                    assert(post[a] == pre[a]);
                    assert(!piece_at(pre[a], x, y));
                } else {
                    assert(post[a] == pre[a]);
                    assert(post[b] == pre[b]);
                }
            }
            assert forall|a: int, b: int|
                0 <= a < post.len() && 0 <= b < post.len() && a != b implies #[trigger] post[a].id
                != #[trigger] post[b].id by {
                if a == k {
                    assert(post[b] == pre[b]);
                } else if b == k {
                    assert(post[a] == pre[a]);
                } else {
                    assert(post[a] == pre[a]);
                    assert(post[b] == pre[b]);
                }
            }
        },
        Some(j) => {
            assert(j != k);
            let post = upd.remove(j);
            upd.remove_ensures(j);
            assert(occupant_of(pre, x, y) is Some) by {
                assert(piece_at(pre[j], x, y));
            }
            assert(post.contains(moved)) by {
                if k < j {
                    assert(post[k] == upd[k]);
                } else {
                    assert(post[k - 1] == upd[k]);
                }
            }
            assert forall|q: Piece|
                #[trigger] pre.contains(q) && q.id != p.id && !piece_at(q, x, y) implies post.contains(
                q,
            ) by {
                let i = choose|i: int| 0 <= i < pre.len() && pre[i] == q;
                assert(i != k);
                assert(i != j);
                assert(upd[i] == q);
                if i < j {
                    assert(post[i] == q);
                } else {
                    assert(post[i - 1] == q);
                }
            }
            assert forall|q: Piece| #[trigger] post.contains(q) implies (q == moved || (pre.contains(
                q,
            ) && q.id != p.id && !piece_at(q, x, y))) by {
                let m = choose|m: int| 0 <= m < post.len() && post[m] == q;
                let u = if m < j {
                    m
                } else {
                    m + 1
                };
                assert(post[m] == upd[u]);
                assert(u != j);
                if u != k {
                    assert(upd[u] == pre[u]);
                    assert(pre.contains(q)) by {
                        assert(pre[u] == q);
                    }
                    assert(pre[u].id != pre[k].id);
                    assert(!(pre[u].x == pre[j].x && pre[u].y == pre[j].y));
                }
            }
            assert forall|i: int| 0 <= i < post.len() implies (#[trigger] post[i]).x < 8
                && post[i].y < 8 by {
                let u = if i < j {
                    i
                } else {
                    i + 1
                };
                assert(post[i] == upd[u]);
                if u != k {
                    assert(upd[u] == pre[u]);
                }
            }
            assert forall|a: int, b: int|
                0 <= a < post.len() && 0 <= b < post.len() && a != b implies !(#[trigger] post[a].x
                == #[trigger] post[b].x && post[a].y == post[b].y) by {
                let ua = if a < j {
                    a
                } else {
                    a + 1
                };
                let ub = if b < j {
                    b
                } else {
                    b + 1
                };
                assert(post[a] == upd[ua]);
                assert(post[b] == upd[ub]);
                assert(ua != ub && ua != j && ub != j);
                if ua == k {
                    assert(upd[ub] == pre[ub]);
                    assert(!(pre[ub].x == pre[j].x && pre[ub].y == pre[j].y));
                } else if ub == k {
                    assert(upd[ua] == pre[ua]);
                    assert(!(pre[ua].x == pre[j].x && pre[ua].y == pre[j].y));
                } else {
                    assert(upd[ua] == pre[ua]);
                    assert(upd[ub] == pre[ub]);
                }
            }
            assert forall|a: int, b: int|
                0 <= a < post.len() && 0 <= b < post.len() && a != b implies #[trigger] post[a].id
                != #[trigger] post[b].id by {
                let ua = if a < j {
                    a
                } else {
                    a + 1
                };
                let ub = if b < j {
                    b
                } else {
                    b + 1
                };
                assert(post[a] == upd[ua]);
                assert(post[b] == upd[ub]);
                assert(ua != ub);
                if ua == k {
                    assert(upd[ub] == pre[ub]);
                } else if ub == k {
                    assert(upd[ua] == pre[ua]);
                } else {
                    assert(upd[ua] == pre[ua]);
                    assert(upd[ub] == pre[ub]);
                }
            }
        },
    }
}

impl GameState {
    /// The board is well formed and any selected identifier names a live
    /// piece of the side to move.
    pub open spec fn wf(self) -> bool {
        &&& valid_piece_list(self.board.pieces@)
        &&& (self.selection matches SelectionState::PieceSelected(id) ==> exists|i: int|
            0 <= i < self.board.pieces@.len() && (#[trigger] self.board.pieces@[i]).id == id
                && self.board.pieces@[i].color == self.turn)
    }

    /// A fresh game: the standard starting position, White to move, nothing
    /// selected, no winner.
    pub fn new() -> (g: GameState)
        ensures
            g.wf(),
            g.board.pieces@ == start_layout(),
            g.selection is Idle,
            g.turn == PieceColor::White,
            g.outcome is None,
    {
        let turn = PlayerTurn::default();
        GameState {
            board: BoardState::starting(),
            selection: SelectionState::Idle,
            turn: turn.color,
            outcome: None,
        }
    }

    /// A game over an arbitrary position, `turn` to move.  Succeeds exactly
    /// when `pieces` is a well-formed board: every piece on the grid, no two
    /// pieces on one square, no two records with one identifier.
    #[verifier::loop_isolation(false)]
    pub fn from_pieces(pieces: Vec<Piece>, turn: PieceColor) -> (r: Option<GameState>)
        ensures
            r is Some <==> valid_piece_list(pieces@),
            r matches Some(g) ==> g.wf() && g.board.pieces@ == pieces@ && g.selection is Idle
                && g.turn == turn && g.outcome is None,
    {
        let n = pieces.len();
        let mut i: usize = 0;
        while i < n
            invariant
                0 <= i <= n,
                forall|a: int| 0 <= a < i ==> (#[trigger] pieces@[a]).x < 8 && pieces@[a].y < 8,
                forall|a: int, b: int|
                    0 <= a < i && a < b < n ==> !(#[trigger] pieces@[a].x == #[trigger] pieces@[b].x
                        && pieces@[a].y == pieces@[b].y),
                forall|a: int, b: int|
                    0 <= a < i && a < b < n ==> #[trigger] pieces@[a].id != #[trigger] pieces@[b].id,
            decreases n - i,
        {
            let p = pieces[i];
            if p.x >= 8 || p.y >= 8 {
                return None;
            }
            let mut j: usize = i + 1;
            while j < n
                invariant
                    i < j <= n,
                    p == pieces@[i as int],
                    forall|b: int|
                        i < b < j ==> !(pieces@[i as int].x == (#[trigger] pieces@[b]).x
                            && pieces@[i as int].y == pieces@[b].y),
                    forall|b: int| i < b < j ==> pieces@[i as int].id != (#[trigger] pieces@[b]).id,
                decreases n - j,
            {
                let q = pieces[j];
                if p.x == q.x && p.y == q.y {
                    assert(!distinct_squares(pieces@)) by {
                        assert(pieces@[i as int].x == pieces@[j as int].x && pieces@[i as int].y
                            == pieces@[j as int].y);
                    }
                    return None;
                }
                if p.id == q.id {
                    assert(!distinct_ids(pieces@)) by {
                        assert(pieces@[i as int].id == pieces@[j as int].id);
                    }
                    return None;
                }
                j = j + 1;
            }
            i = i + 1;
        }
        proof {
            assert forall|a: int, b: int|
                0 <= a < pieces@.len() && 0 <= b < pieces@.len() && a != b implies !(#[trigger] pieces@[a].x
                == #[trigger] pieces@[b].x && pieces@[a].y == pieces@[b].y) by {
                if a > b {
                    assert(!(pieces@[b].x == pieces@[a].x && pieces@[b].y == pieces@[a].y));
                }
            }
            assert forall|a: int, b: int|
                0 <= a < pieces@.len() && 0 <= b < pieces@.len() && a != b implies #[trigger] pieces@[a].id
                != #[trigger] pieces@[b].id by {
                if a > b {
                    assert(pieces@[b].id != pieces@[a].id);
                }
            }
        }
        Some(
            GameState {
                board: BoardState { pieces },
                selection: SelectionState::Idle,
                turn,
                outcome: None,
            },
        )
    }

    /// The color whose move it is.
    pub fn current_turn(&self) -> (r: PieceColor)
        ensures
            r == self.turn,
    {
        self.turn
    }

    /// The winner, once the game is decided.
    pub fn game_outcome(&self) -> (r: Option<PieceColor>)
        ensures
            r == self.outcome,
    {
        self.outcome
    }

    /// A snapshot of all live pieces, for drawing.
    pub fn board_snapshot(&self) -> (r: Vec<Piece>)
        ensures
            r@ == self.board.pieces@,
    {
        self.board.all_pieces()
    }

    /// The square of the currently selected piece, if any.
    pub open spec fn spec_selected_square(self) -> Option<Square> {
        match self.selection {
            SelectionState::Idle => None,
            SelectionState::PieceSelected(id) => match id_lookup(self.board.pieces@, id) {
                Some(p) => Some(Square { x: p.x, y: p.y }),
                None => None,
            },
        }
    }

    /// The square of the currently selected piece, for highlighting.
    pub fn selected_square(&self) -> (r: Option<Square>)
        ensures
            r == self.spec_selected_square(),
    {
        match self.selection {
            SelectionState::Idle => None,
            SelectionState::PieceSelected(id) => match find_piece_index(&self.board.pieces, id) {
                Some(k) => {
                    let p = self.board.pieces[k];
                    Some(Square { x: p.x, y: p.y })
                },
                None => None,
            },
        }
    }

    /// The status line shown between moves.
    pub fn next_move_text(&self) -> (s: String)
        ensures
            self.turn == PieceColor::White ==> s@ == "Next move: White"@,
            self.turn == PieceColor::Black ==> s@ == "Next move: Black"@,
    {
        match self.turn {
            PieceColor::White => <String as StringExecFns>::from_str("Next move: White"),
            PieceColor::Black => <String as StringExecFns>::from_str("Next move: Black"),
        }
    }

    /// Consumes one click event: `None` for a click that missed the board,
    /// `Some(sq)` for a click resolved to the square `sq`.
    ///
    /// A decided game ignores input.  A first click selects a piece of the
    /// side to move; a second click attempts the move: on a legal verdict the
    /// occupant of the target is captured, the piece moves, capturing the
    /// opposing king decides the game, and the turn passes.  The selection
    /// is cleared after every attempt, successful or not.  The turn passes
    /// exactly on a completed move, and an unsuccessful click leaves board,
    /// turn and outcome untouched.
    pub fn handle_click(&mut self, click: Option<Square>) -> (r: ClickOutcome)
        requires
            old(self).wf(),
        ensures
            final(self).wf(),
            old(self).outcome is Some ==> *final(self) == *old(self) && r == ClickOutcome::GameOver,
            old(self).outcome is None && click is None ==> same_but_selection(
                *old(self),
                *final(self),
                SelectionState::Idle,
            ) && r == ClickOutcome::MissedBoard,
            click matches Some(sq) ==> ((old(self).outcome is None && !square_in_range(sq))
                ==> *final(self) == *old(self) && r == ClickOutcome::InvalidSquare),
            click matches Some(sq) ==> ((old(self).outcome is None && old(self).selection is Idle
                && square_in_range(sq)) ==> idle_click_post(*old(self), sq, *final(self), r)),
            click matches Some(sq) ==> (old(self).selection matches SelectionState::PieceSelected(
                id,
            ) ==> ((old(self).outcome is None && square_in_range(sq)) ==> attempt_post(
                *old(self),
                id,
                sq,
                *final(self),
                r,
            ))),
            r == ClickOutcome::Moved || r == ClickOutcome::Won ==> final(self).turn == other_color(
                old(self).turn,
            ),
            !(r == ClickOutcome::Moved || r == ClickOutcome::Won) ==> final(self).turn == old(
                self,
            ).turn && final(self).board.pieces@ == old(self).board.pieces@ && final(self).outcome
                == old(self).outcome,
    {
        if self.outcome.is_some() {
            return ClickOutcome::GameOver;
        }
        let sq = match click {
            None => {
                self.selection = SelectionState::Idle;
                return ClickOutcome::MissedBoard;
            },
            Some(s) => s,
        };
        if sq.x >= 8 || sq.y >= 8 {
            return ClickOutcome::InvalidSquare;
        }
        match self.selection {
            SelectionState::Idle => {
                match self.board.occupant_at(sq) {
                    Some(p) => {
                        if p.color == self.turn {
                            proof {
                                lemma_occupant_exists(
                                    self.board.pieces@,
                                    sq.x as int,
                                    sq.y as int,
                                );
                                let i = choose|i: int|
                                    0 <= i < self.board.pieces@.len() && self.board.pieces@[i]
                                        == p;
                                assert(self.board.pieces@[i].id == p.id
                                    && self.board.pieces@[i].color == self.turn);
                            }
                            self.selection = SelectionState::PieceSelected(p.id);
                            ClickOutcome::Selected
                        } else {
                            ClickOutcome::Ignored
                        }
                    },
                    None => ClickOutcome::Ignored,
                }
            },
            SelectionState::PieceSelected(id) => {
                self.selection = SelectionState::Idle;
                proof {
                    lemma_id_exists(self.board.pieces@, id);
                }
                let k = find_piece_index(&self.board.pieces, id).unwrap();
                let p = self.board.pieces[k];
                let snapshot = self.board.all_pieces();
                if p.is_move_valid((sq.x, sq.y), snapshot) {
                    let ghost pre = self.board.pieces@;
                    proof {
                        if piece_at(pre[k as int], sq.x as int, sq.y as int) {
                            assert(pre.contains(pre[k as int])) by {
                                assert(pre[k as int] == pre[k as int]);
                            }
                            lemma_occupant_unique(pre, sq.x as int, sq.y as int, pre[k as int]);
                            assert(false);
                        }
                    }
                    let j_opt = find_occupant_index((sq.x, sq.y), &self.board.pieces);
                    let mut won = false;
                    if let Some(j) = j_opt {
                        let victim = self.board.pieces[j];
                        if victim.piece_type == PieceType::King {
                            self.outcome = Some(self.turn);
                            won = true;
                        }
                    }
                    let moved = Piece {
                        id: p.id,
                        color: p.color,
                        piece_type: p.piece_type,
                        x: sq.x,
                        y: sq.y,
                    };
                    self.board.pieces.set(k, moved);
                    if let Some(j) = j_opt {
                        self.board.pieces.remove(j);
                    }
                    proof {
                        lemma_move_effect(
                            pre,
                            k as int,
                            match j_opt {
                                Some(j) => Some(j as int),
                                None => None,
                            },
                            sq,
                        );
                    }
                    self.turn = match self.turn {
                        PieceColor::White => PieceColor::Black,
                        PieceColor::Black => PieceColor::White,
                    };
                    if won {
                        ClickOutcome::Won
                    } else {
                        ClickOutcome::Moved
                    }
                } else {
                    ClickOutcome::Illegal
                }
            },
        }
    }
}

} // verus!
