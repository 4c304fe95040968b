//! Board geometry and the live board state.
//!
//! A well-formed board keeps every piece inside the 8x8 grid, at most one
//! piece per square, and one record per identifier.  The standard starting
//! layout places the white back rank on file 0 and its pawns on file 1, with
//! black mirrored on files 7 and 6.

use crate::pieces::{
    distinct_ids, distinct_squares, find_occupant, occupant_of, piece_at,
    Piece, PieceColor, PieceType,
};
use vstd::prelude::*;

verus! {

/// A board coordinate: file `x` and rank `y`.
#[derive(Clone, Copy, PartialEq, Eq, Structural, Debug)]
pub struct Square {
    pub x: u8,
    pub y: u8,
}

/// Whether `sq` lies on the 8x8 board.
pub open spec fn square_in_range(sq: Square) -> bool {
    sq.x < 8 && sq.y < 8
}

impl Square {
    /// Whether this square is drawn in the light color of the checkered
    /// pattern.
    pub fn is_white(&self) -> (r: bool)
        ensures
            r <==> (self.x as int + self.y as int + 1) % 2 == 0,
    {
        (self.x as u16 + self.y as u16 + 1) % 2 == 0
    }
}

/// The tint a board square is drawn in.
#[derive(Clone, Copy, PartialEq, Eq, Structural, Debug)]
pub enum SquareShade {
    /// The square under the pointer.
    Hovered,
    /// The square of the selected piece.
    Selected,
    /// The light color of the checkered pattern.
    Light,
    /// The dark color of the checkered pattern.
    Dark,
}

/// The tint of `sq`: the hovered square wins over the selected one, which
/// wins over the checkered pattern.
pub open spec fn shade_of(sq: Square, hovered: Option<Square>, selected: Option<Square>) -> SquareShade {
    if hovered == Some(sq) {
        SquareShade::Hovered
    } else if selected == Some(sq) {
        SquareShade::Selected
    } else if (sq.x as int + sq.y as int + 1) % 2 == 0 {
        SquareShade::Light
    } else {
        SquareShade::Dark
    }
}

/// Picks the tint of `sq` given the hovered and the selected squares.
pub fn square_shade(sq: Square, hovered: Option<Square>, selected: Option<Square>) -> (r: SquareShade)
    ensures
        r == shade_of(sq, hovered, selected),
{
    let under_pointer = match hovered {
        Some(h) => h.x == sq.x && h.y == sq.y,
        None => false,
    };
    if under_pointer {
        return SquareShade::Hovered;
    }
    let picked = match selected {
        Some(s) => s.x == sq.x && s.y == sq.y,
        None => false,
    };
    if picked {
        SquareShade::Selected
    } else if sq.is_white() {
        SquareShade::Light
    } else {
        SquareShade::Dark
    }
}

/// The color whose move it is.
#[derive(Clone, Copy, PartialEq, Eq, Structural, Debug)]
pub struct PlayerTurn {
    pub color: PieceColor,
}

impl Default for PlayerTurn {
    /// White moves first.
    fn default() -> (r: Self)
        ensures
            r.color == PieceColor::White,
    {
        PlayerTurn { color: PieceColor::White }
    }
}

/// The first piece of `ps` carrying the identifier `id`, if any.
///
/// On a well-formed board identifiers are unique, so the choice of the first
/// is immaterial there.
pub open spec fn id_lookup(ps: Seq<Piece>, id: u32) -> Option<Piece>
    decreases ps.len(),
{
    if ps.len() == 0 {
        None
    } else if ps[0].id == id {
        Some(ps[0])
    } else {
        id_lookup(ps.drop_first(), id)
    }
}

/// Peeling one element off the front of the suffix `ps.skip(i)` steps the
/// identifier search by one index.
proof fn lemma_id_skip(ps: Seq<Piece>, i: int, id: u32)
    requires
        0 <= i < ps.len(),
    ensures
        id_lookup(ps.skip(i), id) == if ps[i].id == id {
            Some(ps[i])
        } else {
            id_lookup(ps.skip(i + 1), id)
        },
{
    assert(ps.skip(i)[0] == ps[i]);
    assert(ps.skip(i).drop_first() =~= ps.skip(i + 1));
}

/// The identifier search succeeds exactly when some piece carries the
/// identifier, and what it returns is such a piece.
pub proof fn lemma_id_exists(ps: Seq<Piece>, id: u32)
    ensures
        id_lookup(ps, id) is Some <==> exists|i: int| 0 <= i < ps.len() && (#[trigger] ps[i]).id == id,
        id_lookup(ps, id) matches Some(q) ==> ps.contains(q) && q.id == id,
    decreases ps.len(),
{
    if ps.len() > 0 {
        if ps[0].id == id {
            assert(ps.contains(ps[0]));
        } else {
            lemma_id_exists(ps.drop_first(), id);
            match id_lookup(ps, id) {
                Some(q) => {
                    assert(ps.drop_first().contains(q));
                    let i = choose|i: int| 0 <= i < ps.drop_first().len() && ps.drop_first()[i] == q;
                    assert(ps[i + 1] == q);
                    assert(ps.contains(q));
                },
                None => {},
            }
            if exists|i: int| 0 <= i < ps.len() && (#[trigger] ps[i]).id == id {
                let i = choose|i: int| 0 <= i < ps.len() && (#[trigger] ps[i]).id == id;
                assert(i != 0);
                assert(ps.drop_first()[i - 1].id == id);
            }
        }
    }
}

/// Finds the index of the first piece of `pieces` carrying `id`.
#[verifier::loop_isolation(false)]
pub fn find_piece_index(pieces: &Vec<Piece>, id: u32) -> (r: Option<usize>)
    ensures
        r matches Some(i) ==> i < pieces@.len() && id_lookup(pieces@, id) == Some(pieces@[i as int])
            && pieces@[i as int].id == id,
        r is None ==> id_lookup(pieces@, id) is None,
{
    let n = pieces.len();
    let mut i: usize = 0;
    proof {
        assert(pieces@.skip(0) =~= pieces@);
    }
    while i < n
        invariant
            0 <= i <= n,
            id_lookup(pieces@, id) == id_lookup(pieces@.skip(i as int), id),
        decreases n - i,
    {
        proof {
            lemma_id_skip(pieces@, i as int, id);
        }
        if pieces[i].id == id {
            return Some(i);
        }
        i = i + 1;
    }
    proof {
        assert(pieces@.skip(n as int) =~= Seq::<Piece>::empty());
    }
    None
}

/// Finds the index of the first piece of `pieces` standing on `pos`.
#[verifier::loop_isolation(false)]
pub fn find_occupant_index(pos: (u8, u8), pieces: &Vec<Piece>) -> (r: Option<usize>)
    ensures
        r matches Some(i) ==> i < pieces@.len() && occupant_of(pieces@, pos.0 as int, pos.1 as int)
            == Some(pieces@[i as int]) && piece_at(pieces@[i as int], pos.0 as int, pos.1 as int),
        r is None ==> occupant_of(pieces@, pos.0 as int, pos.1 as int) is None,
{
    let n = pieces.len();
    let mut i: usize = 0;
    proof {
        assert(pieces@.skip(0) =~= pieces@);
    }
    while i < n
        invariant
            0 <= i <= n,
            occupant_of(pieces@, pos.0 as int, pos.1 as int) == occupant_of(
                pieces@.skip(i as int),
                pos.0 as int,
                pos.1 as int,
            ),
        decreases n - i,
    {
        proof {
            crate::pieces::lemma_occupant_skip(pieces@, i as int, pos.0 as int, pos.1 as int);
        }
        let p = pieces[i];
        if p.x == pos.0 && p.y == pos.1 {
            return Some(i);
        }
        i = i + 1;
    }
    proof {
        assert(pieces@.skip(n as int) =~= Seq::<Piece>::empty());
    }
    None
}

/// The live board: the collection of all pieces still in play.
#[derive(Debug)]
pub struct BoardState {
    pub pieces: Vec<Piece>,
}

/// A well-formed piece list: every piece on the grid, at most one piece per
/// square, one record per identifier.
pub open spec fn valid_piece_list(ps: Seq<Piece>) -> bool {
    &&& forall|i: int| 0 <= i < ps.len() ==> (#[trigger] ps[i]).x < 8 && ps[i].y < 8
    &&& distinct_squares(ps)
    &&& distinct_ids(ps)
}

impl BoardState {
    /// Every piece on the grid, at most one piece per square, one record per
    /// identifier.
    pub open spec fn wf(self) -> bool {
        valid_piece_list(self.pieces@)
    }

    /// The piece standing on `square`, if any; reflects every mutation made
    /// so far.
    pub fn occupant_at(&self, square: Square) -> (r: Option<Piece>)
        ensures
            r == occupant_of(self.pieces@, square.x as int, square.y as int),
    {
        find_occupant((square.x, square.y), &self.pieces)
    }

    /// A snapshot of all live pieces, in board order.
    #[verifier::loop_isolation(false)]
    pub fn all_pieces(&self) -> (r: Vec<Piece>)
        ensures
            r@ == self.pieces@,
    {
        let n = self.pieces.len();
        let mut out: Vec<Piece> = Vec::new();
        let mut i: usize = 0;
        while i < n
            invariant
                0 <= i <= n,
                out@.len() == i,
                forall|j: int| 0 <= j < i ==> out@[j] == self.pieces@[j],
            decreases n - i,
        {
            out.push(self.pieces[i]);
            i = i + 1;
        }
        proof {
            assert(out@ =~= self.pieces@);
        }
        out
    }
}

/// The kind standing on rank `y` of a back rank, in the standard layout.
pub open spec fn back_rank_kind(y: int) -> PieceType {
    if y == 0 || y == 7 {
        PieceType::Rook
    } else if y == 1 || y == 6 {
        PieceType::Knight
    } else if y == 2 || y == 5 {
        PieceType::Bishop
    } else if y == 3 {
        PieceType::Queen
    } else {
        PieceType::King
    }
}

/// The `i`-th piece of the starting layout: white back rank (ids 0-7) on
/// file 0, white pawns (ids 8-15) on file 1, black back rank (ids 16-23) on
/// file 7, black pawns (ids 24-31) on file 6.
pub open spec fn start_piece(i: int) -> Piece {
    if i < 8 {
        Piece {
            id: i as u32,
            color: PieceColor::White,
            piece_type: back_rank_kind(i),
            x: 0,
            y: i as u8,
        }
    } else if i < 16 {
        Piece {
            id: i as u32,
            color: PieceColor::White,
            piece_type: PieceType::Pawn,
            x: 1,
            y: (i - 8) as u8,
        }
    } else if i < 24 {
        Piece {
            id: i as u32,
            color: PieceColor::Black,
            piece_type: back_rank_kind(i - 16),
            x: 7,
            y: (i - 16) as u8,
        }
    } else {
        Piece {
            id: i as u32,
            color: PieceColor::Black,
            piece_type: PieceType::Pawn,
            x: 6,
            y: (i - 24) as u8,
        }
    }
}

/// The 32 pieces of the standard starting position.
pub open spec fn start_layout() -> Seq<Piece> {
    Seq::new(32, |i: int| start_piece(i))
}

/// The starting layout is a well-formed board.
pub proof fn lemma_start_layout_wf()
    ensures
        forall|i: int|
            0 <= i < start_layout().len() ==> (#[trigger] start_layout()[i]).x < 8
                && start_layout()[i].y < 8,
        distinct_squares(start_layout()),
        distinct_ids(start_layout()),
{
    assert forall|i: int, j: int|
        0 <= i < start_layout().len() && 0 <= j < start_layout().len() && i
        != j implies !(#[trigger] start_layout()[i].x == #[trigger] start_layout()[j].x
        && start_layout()[i].y == start_layout()[j].y) by {
        assert(start_layout()[i] == start_piece(i));
        assert(start_layout()[j] == start_piece(j));
    }
    assert forall|i: int, j: int|
        0 <= i < start_layout().len() && 0 <= j < start_layout().len() && i
        != j implies #[trigger] start_layout()[i].id != #[trigger] start_layout()[j].id by {
        assert(start_layout()[i] == start_piece(i));
        assert(start_layout()[j] == start_piece(j));
    }
}

/// The back-rank kind on rank `y`, computed.
fn back_rank_kind_at(y: u8) -> (k: PieceType)
    ensures
        k == back_rank_kind(y as int),
{
    if y == 0 || y == 7 {
        PieceType::Rook
    } else if y == 1 || y == 6 {
        PieceType::Knight
    } else if y == 2 || y == 5 {
        PieceType::Bishop
    } else if y == 3 {
        PieceType::Queen
    } else {
        PieceType::King
    }
}

/// The `i`-th piece of the starting layout, computed.
fn start_piece_at(i: u8) -> (p: Piece)
    requires
        i < 32,
    ensures
        p == start_piece(i as int),
{
    if i < 8 {
        Piece {
            id: i as u32,
            color: PieceColor::White,
            piece_type: back_rank_kind_at(i),
            x: 0,
            y: i,
        }
    } else if i < 16 {
        Piece {
            id: i as u32,
            color: PieceColor::White,
            piece_type: PieceType::Pawn,
            x: 1,
            y: i - 8,
        }
    } else if i < 24 {
        Piece {
            id: i as u32,
            color: PieceColor::Black,
            piece_type: back_rank_kind_at(i - 16),
            x: 7,
            y: i - 16,
        }
    } else {
        Piece {
            id: i as u32,
            color: PieceColor::Black,
            piece_type: PieceType::Pawn,
            x: 6,
            y: i - 24,
        }
    }
}

impl BoardState {
    /// The standard starting position: all 32 pieces, created once at game
    /// start.
    #[verifier::loop_isolation(false)]
    pub fn starting() -> (b: BoardState)
        ensures
            b.pieces@ == start_layout(),
            b.wf(),
    {
        let mut pieces: Vec<Piece> = Vec::new();
        let mut i: u8 = 0;
        while i < 32
            invariant
                0 <= i <= 32,
                pieces@.len() == i as int,
                forall|j: int| 0 <= j < i as int ==> pieces@[j] == start_piece(j),
            decreases 32 - i,
        {
            pieces.push(start_piece_at(i));
            i = i + 1;
        }
        let b = BoardState { pieces };
        proof {
            assert(b.pieces@ =~= start_layout());
            lemma_start_layout_wf();
        }
        b
    }
}

} // verus!
