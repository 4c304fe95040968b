//! Piece vocabulary and the move validator.
//!
//! A move is judged against the full board: a square held by a piece of the
//! mover's own color is never a legal destination, and sliding pieces demand
//! an unobstructed path.  The validator is a pure function; it mutates
//! nothing and returns only a verdict.

use vstd::prelude::*;

verus! {

/// The two sides of the game.
#[derive(Clone, Copy, PartialEq, Eq, Structural, Debug)]
pub enum PieceColor {
    White,
    Black,
}

/// The six kinds of chess piece.
#[derive(Clone, Copy, PartialEq, Eq, Structural, Debug)]
pub enum PieceType {
    King,
    Queen,
    Bishop,
    Knight,
    Rook,
    Pawn,
}

/// A live piece: a stable identifier, its side, its kind, and its square.
///
/// Coordinates follow the engine's own convention: `x` is the file index and
/// `y` the rank index, each expected in `[0, 7]` on a well-formed board.
/// White pawns advance toward increasing `x`, black pawns toward
/// decreasing `x`.
#[derive(Clone, Copy, PartialEq, Eq, Structural, Debug)]
pub struct Piece {
    pub id: u32,
    pub color: PieceColor,
    pub piece_type: PieceType,
    pub x: u8,
    pub y: u8,
}

/// The side that moves after `c`.
pub open spec fn other_color(c: PieceColor) -> PieceColor {
    match c {
        PieceColor::White => PieceColor::Black,
        PieceColor::Black => PieceColor::White,
    }
}

/// Whether piece `p` stands on the square `(x, y)`.
pub open spec fn piece_at(p: Piece, x: int, y: int) -> bool {
    p.x as int == x && p.y as int == y
}

/// The first piece of `ps` standing on `(x, y)`, if any.
///
/// On a well-formed board at most one piece stands on any square, so the
/// choice of the first is immaterial there; this definition also pins down
/// the behaviour on arbitrary piece lists.
pub open spec fn occupant_of(ps: Seq<Piece>, x: int, y: int) -> Option<Piece>
    decreases ps.len(),
{
    if ps.len() == 0 {
        None
    } else if piece_at(ps[0], x, y) {
        Some(ps[0])
    } else {
        occupant_of(ps.drop_first(), x, y)
    }
}

/// The color holding the square `(x, y)`, if any.
pub open spec fn color_at(ps: Seq<Piece>, x: int, y: int) -> Option<PieceColor> {
    match occupant_of(ps, x, y) {
        Some(p) => Some(p.color),
        None => None,
    }
}

/// No two pieces of `ps` share a square.
pub open spec fn distinct_squares(ps: Seq<Piece>) -> bool {
    forall|i: int, j: int|
        0 <= i < ps.len() && 0 <= j < ps.len() && i != j ==> !(#[trigger] ps[i].x == #[trigger] ps[j].x
            && ps[i].y == ps[j].y)
}

/// No two pieces of `ps` share an identifier.
pub open spec fn distinct_ids(ps: Seq<Piece>) -> bool {
    forall|i: int, j: int|
        0 <= i < ps.len() && 0 <= j < ps.len() && i != j ==> #[trigger] ps[i].id != #[trigger] ps[j].id
}

/// Peeling one element off the front of the suffix `ps.skip(i)` steps the
/// occupant search by one index.
pub proof fn lemma_occupant_skip(ps: Seq<Piece>, i: int, x: int, y: int)
    requires
        0 <= i < ps.len(),
    ensures
        occupant_of(ps.skip(i), x, y) == if piece_at(ps[i], x, y) {
            Some(ps[i])
        } else {
            occupant_of(ps.skip(i + 1), x, y)
        },
{
    assert(ps.skip(i).len() == ps.len() - i);
    assert(ps.skip(i)[0] == ps[i]);
    assert(ps.skip(i).drop_first() =~= ps.skip(i + 1));
}

/// The occupant search succeeds exactly when some piece stands on the square,
/// and what it returns is such a piece.
pub proof fn lemma_occupant_exists(ps: Seq<Piece>, x: int, y: int)
    ensures
        occupant_of(ps, x, y) is Some <==> exists|i: int|
            0 <= i < ps.len() && piece_at(#[trigger] ps[i], x, y),
        occupant_of(ps, x, y) matches Some(q) ==> ps.contains(q) && piece_at(q, x, y),
    decreases ps.len(),
{
    if ps.len() > 0 {
        if piece_at(ps[0], x, y) {
            assert(ps.contains(ps[0]));
        } else {
            lemma_occupant_exists(ps.drop_first(), x, y);
            match occupant_of(ps, x, y) {
                Some(q) => {
                    assert(ps.drop_first().contains(q));
                    let i = choose|i: int|
                        0 <= i < ps.drop_first().len() && ps.drop_first()[i] == q;
                    assert(ps[i + 1] == q);
                    assert(ps.contains(q));
                },
                None => {},
            }
            if exists|i: int| 0 <= i < ps.len() && piece_at(#[trigger] ps[i], x, y) {
                let i = choose|i: int| 0 <= i < ps.len() && piece_at(#[trigger] ps[i], x, y);
                assert(i != 0);
                assert(piece_at(ps.drop_first()[i - 1], x, y));
            }
        }
    }
}

/// On a board where no two pieces share a square, the occupant of a square is
/// the one piece standing on it.
pub proof fn lemma_occupant_unique(ps: Seq<Piece>, x: int, y: int, q: Piece)
    requires
        distinct_squares(ps),
        ps.contains(q),
        piece_at(q, x, y),
    ensures
        occupant_of(ps, x, y) == Some(q),
    decreases ps.len(),
{
    let i = choose|i: int| 0 <= i < ps.len() && ps[i] == q;
    if piece_at(ps[0], x, y) {
        if i != 0 {
            assert(ps[0].x == ps[i].x && ps[0].y == ps[i].y);
            assert(false);
        }
    } else {
        assert(i != 0);
        assert(ps.drop_first()[i - 1] == q);
        assert(ps.drop_first().contains(q));
        assert forall|a: int, b: int|
            0 <= a < ps.drop_first().len() && 0 <= b < ps.drop_first().len() && a != b implies !(#[trigger] ps.drop_first()[a].x
            == #[trigger] ps.drop_first()[b].x && ps.drop_first()[a].y == ps.drop_first()[b].y) by {
            assert(ps.drop_first()[a] == ps[a + 1]);
            assert(ps.drop_first()[b] == ps[b + 1]);
        }
        lemma_occupant_unique(ps.drop_first(), x, y, q);
    }
}

/// Finds the first piece of `pieces` standing on `pos`, scanning in order.
pub fn find_occupant(pos: (u8, u8), pieces: &Vec<Piece>) -> (r: Option<Piece>)
    ensures
        r == occupant_of(pieces@, pos.0 as int, pos.1 as int),
{
    let x = pos.0;
    let y = pos.1;
    let n = pieces.len();
    let mut i: usize = 0;
    proof {
        assert(pieces@.skip(0) =~= pieces@);
    }
    while i < n
        invariant
            0 <= i <= n,
            n == pieces@.len(),
            x == pos.0,
            y == pos.1,
            occupant_of(pieces@, x as int, y as int) == occupant_of(
                pieces@.skip(i as int),
                x as int,
                y as int,
            ),
        decreases n - i,
    {
        proof {
            lemma_occupant_skip(pieces@, i as int, x as int, y as int);
        }
        let p = pieces[i];
        if p.x == x && p.y == y {
            proof {
                assert(piece_at(pieces@[i as int], x as int, y as int));
            }
            return Some(p);
        }
        i = i + 1;
    }
    proof {
        assert(pieces@.skip(n as int) =~= Seq::<Piece>::empty());
    }
    None
}

/// Whether `m` lies strictly between `a` and `b`, in either order.
pub open spec fn strictly_between(a: int, m: int, b: int) -> bool {
    (a < m && m < b) || (b < m && m < a)
}

/// The magnitude of a signed delta.
pub open spec fn mag(d: int) -> int {
    if d < 0 {
        -d
    } else {
        d
    }
}

/// The coordinate reached after `k` unit steps from `a` in the direction
/// of `b`.
pub open spec fn toward(a: int, b: int, k: int) -> int {
    if a < b {
        a + k
    } else {
        a - k
    }
}

/// Whether `p` obstructs a move along file `fx` between ranks `fy` and `ty`.
pub open spec fn blocks_file(p: Piece, fx: int, fy: int, ty: int) -> bool {
    p.x as int == fx && strictly_between(fy, p.y as int, ty)
}

/// Whether `p` obstructs a move along rank `fy` between files `fx` and `tx`.
pub open spec fn blocks_rank(p: Piece, fy: int, fx: int, tx: int) -> bool {
    p.y as int == fy && strictly_between(fx, p.x as int, tx)
}

/// No piece of `ps` stands on file `fx` strictly between ranks `fy` and `ty`.
pub open spec fn file_clear(ps: Seq<Piece>, fx: int, fy: int, ty: int) -> bool {
    forall|i: int| 0 <= i < ps.len() ==> !blocks_file(#[trigger] ps[i], fx, fy, ty)
}

/// No piece of `ps` stands on rank `fy` strictly between files `fx` and `tx`.
pub open spec fn rank_clear(ps: Seq<Piece>, fy: int, fx: int, tx: int) -> bool {
    forall|i: int| 0 <= i < ps.len() ==> !blocks_rank(#[trigger] ps[i], fy, fx, tx)
}

/// No piece of `ps` stands on an interior square of the diagonal from
/// `(fx, fy)` to `(tx, ty)`.
pub open spec fn diagonal_clear(ps: Seq<Piece>, fx: int, fy: int, tx: int, ty: int) -> bool {
    forall|k: int|
        1 <= k < mag(tx - fx) ==> occupant_of(ps, #[trigger] toward(fx, tx, k), toward(fy, ty, k)) is None
}

/// Whether the straight or diagonal line from `(fx, fy)` to `(tx, ty)` has no
/// piece on an interior square.
///
/// A request that is neither same-file, same-rank nor equal-delta (a
/// knight-shaped request) is reported clear: callers gate on geometry first.
pub open spec fn path_clear(ps: Seq<Piece>, fx: int, fy: int, tx: int, ty: int) -> bool {
    &&& fx == tx ==> file_clear(ps, fx, fy, ty)
    &&& fy == ty ==> rank_clear(ps, fy, fx, tx)
    &&& mag(tx - fx) == mag(ty - fy) ==> diagonal_clear(ps, fx, fy, tx, ty)
}

/// Reports whether the line from `begin` to `end` is free of intervening
/// pieces, checking the same-file, same-rank and equal-delta screens in turn.
#[verifier::loop_isolation(false)]
pub fn is_path_empty(begin: (u8, u8), end: (u8, u8), pieces: &Vec<Piece>) -> (r: bool)
    ensures
        r == path_clear(pieces@, begin.0 as int, begin.1 as int, end.0 as int, end.1 as int),
{
    let (bx, by) = begin;
    let (ex, ey) = end;
    let n = pieces.len();
    if bx == ex {
        let mut i: usize = 0;
        while i < n
            invariant
                0 <= i <= n,
                forall|j: int| 0 <= j < i ==> !blocks_file(#[trigger] pieces@[j], bx as int, by as int, ey as int),
            decreases n - i,
        {
            let p = pieces[i];
            if p.x == bx && ((p.y > by && p.y < ey) || (p.y > ey && p.y < by)) {
                assert(blocks_file(pieces@[i as int], bx as int, by as int, ey as int));
                return false;
            }
            i = i + 1;
        }
        assert(file_clear(pieces@, bx as int, by as int, ey as int));
    }
    if by == ey {
        let mut i: usize = 0;
        while i < n
            invariant
                0 <= i <= n,
                forall|j: int| 0 <= j < i ==> !blocks_rank(#[trigger] pieces@[j], by as int, bx as int, ex as int),
            decreases n - i,
        {
            let p = pieces[i];
            if p.y == by && ((p.x > bx && p.x < ex) || (p.x > ex && p.x < bx)) {
                assert(blocks_rank(pieces@[i as int], by as int, bx as int, ex as int));
                return false;
            }
            i = i + 1;
        }
        assert(rank_clear(pieces@, by as int, bx as int, ex as int));
    }
    let xd: u8 = if bx >= ex {
        bx - ex
    } else {
        ex - bx
    };
    let yd: u8 = if by >= ey {
        by - ey
    } else {
        ey - by
    };
    if xd == yd {
        let mut k: u8 = 1;
        while k < xd
            invariant
                1 <= k,
                k <= xd || xd == 0,
                xd as int == mag(ex as int - bx as int),
                forall|j: int|
                    1 <= j < k ==> occupant_of(
                        pieces@,
                        #[trigger] toward(bx as int, ex as int, j),
                        toward(by as int, ey as int, j),
                    ) is None,
            decreases xd - k,
        {
            let px: u8 = if bx < ex {
                bx + k
            } else {
                bx - k
            };
            let py: u8 = if by < ey {
                by + k
            } else {
                by - k
            };
            if color_of_square((px, py), pieces).is_some() {
                assert(occupant_of(pieces@, toward(bx as int, ex as int, k as int),
                    toward(by as int, ey as int, k as int)) is Some);
                return false;
            }
            k = k + 1;
        }
        assert(diagonal_clear(pieces@, bx as int, by as int, ex as int, ey as int));
    }
    true
}

/// The color holding `pos`, scanning `pieces` in order; `None` on an empty
/// square.
pub fn color_of_square(pos: (u8, u8), pieces: &Vec<Piece>) -> (r: Option<PieceColor>)
    ensures
        r == color_at(pieces@, pos.0 as int, pos.1 as int),
{
    match find_occupant(pos, pieces) {
        Some(p) => Some(p.color),
        None => None,
    }
}

/// King geometry: one step along a file, a rank, or a diagonal.
pub open spec fn king_shape(dx: int, dy: int) -> bool {
    ||| mag(dx) == 1 && dy == 0
    ||| mag(dy) == 1 && dx == 0
    ||| mag(dx) == 1 && mag(dy) == 1
}

/// Knight geometry: two steps on one axis and one on the other.
pub open spec fn knight_shape(dx: int, dy: int) -> bool {
    ||| mag(dx) == 2 && mag(dy) == 1
    ||| mag(dx) == 1 && mag(dy) == 2
}

/// Straight geometry: movement along exactly one axis.
pub open spec fn straight_shape(dx: int, dy: int) -> bool {
    ||| dx == 0 && dy != 0
    ||| dy == 0 && dx != 0
}

/// Queen geometry: a straight line, or a diagonal of at least one step.
pub open spec fn queen_shape(dx: int, dy: int) -> bool {
    ||| mag(dx) == mag(dy) && dx != 0
    ||| straight_shape(dx, dy)
}

/// White-pawn rule: a single advance onto an empty square, a double advance
/// from the starting file over a clear path onto an empty square, or a
/// one-step diagonal capture of a black piece.
pub open spec fn white_pawn_move(p: Piece, tx: int, ty: int, ps: Seq<Piece>) -> bool {
    let dx = tx - p.x as int;
    let dy = ty - p.y as int;
    ||| dx == 1 && dy == 0 && color_at(ps, tx, ty) is None
    ||| p.x == 1 && dx == 2 && dy == 0 && path_clear(ps, p.x as int, p.y as int, tx, ty)
        && color_at(ps, tx, ty) is None
    ||| dx == 1 && mag(dy) == 1 && color_at(ps, tx, ty) == Some(PieceColor::Black)
}

/// Black-pawn rule, the mirror image of the white one: advances decrease the
/// file coordinate and captures take white pieces.
pub open spec fn black_pawn_move(p: Piece, tx: int, ty: int, ps: Seq<Piece>) -> bool {
    let dx = tx - p.x as int;
    let dy = ty - p.y as int;
    ||| dx == -1 && dy == 0 && color_at(ps, tx, ty) is None
    ||| p.x == 6 && dx == -2 && dy == 0 && path_clear(ps, p.x as int, p.y as int, tx, ty)
        && color_at(ps, tx, ty) is None
    ||| dx == -1 && mag(dy) == 1 && color_at(ps, tx, ty) == Some(PieceColor::White)
}

/// Whether `p` may move to `(tx, ty)` on the board `ps`.
///
/// A destination held by a piece of `p`'s own color is refused before any
/// kind-specific rule; sliding pieces additionally demand a clear path.
/// No check-safety rule is applied: a king may step onto an attacked square.
/// The bishop's geometry alone admits the degenerate zero-step move; on a
/// board holding the bishop itself that request still fails the own-color
/// rule, while the queen's geometry excludes the zero-step diagonal outright.
pub open spec fn valid_move(p: Piece, tx: int, ty: int, ps: Seq<Piece>) -> bool {
    if color_at(ps, tx, ty) == Some(p.color) {
        false
    } else {
        let dx = tx - p.x as int;
        let dy = ty - p.y as int;
        match p.piece_type {
            PieceType::King => king_shape(dx, dy),
            PieceType::Queen => path_clear(ps, p.x as int, p.y as int, tx, ty) && queen_shape(
                dx,
                dy,
            ),
            PieceType::Bishop => path_clear(ps, p.x as int, p.y as int, tx, ty) && mag(dx) == mag(
                dy,
            ),
            PieceType::Knight => knight_shape(dx, dy),
            PieceType::Rook => path_clear(ps, p.x as int, p.y as int, tx, ty) && straight_shape(
                dx,
                dy,
            ),
            PieceType::Pawn => match p.color {
                PieceColor::White => white_pawn_move(p, tx, ty, ps),
                PieceColor::Black => black_pawn_move(p, tx, ty, ps),
            },
        }
    }
}

impl Piece {
    /// Judges a proposed move of this piece to `new_position` against the
    /// full board `pieces`: the per-kind geometry, the own-color rule, and
    /// the path-obstruction rule for sliding pieces and double pawn
    /// advances.  Pure: the verdict is the only output.
    pub fn is_move_valid(&self, new_position: (u8, u8), pieces: Vec<Piece>) -> (r: bool)
        ensures
            r == valid_move(*self, new_position.0 as int, new_position.1 as int, pieces@),
    {
        let (tx, ty) = new_position;
        if let Some(c) = color_of_square(new_position, &pieces) {
            if c == self.color {
                return false;
            }
        }
        let dx: i16 = tx as i16 - self.x as i16;
        let dy: i16 = ty as i16 - self.y as i16;
        let adx: i16 = if dx < 0 {
            -dx
        } else {
            dx
        };
        let ady: i16 = if dy < 0 {
            -dy
        } else {
            dy
        };
        match self.piece_type {
            PieceType::King => (adx == 1 && dy == 0) || (ady == 1 && dx == 0) || (adx == 1 && ady
                == 1),
            PieceType::Queen => is_path_empty((self.x, self.y), new_position, &pieces) && ((adx
                == ady && dx != 0) || (dx == 0 && dy != 0) || (dy == 0 && dx != 0)),
            PieceType::Bishop => is_path_empty((self.x, self.y), new_position, &pieces) && adx
                == ady,
            PieceType::Knight => (adx == 2 && ady == 1) || (adx == 1 && ady == 2),
            PieceType::Rook => is_path_empty((self.x, self.y), new_position, &pieces) && ((dx == 0
                && dy != 0) || (dy == 0 && dx != 0)),
            PieceType::Pawn => {
                let target = color_of_square(new_position, &pieces);
                if self.color == PieceColor::White {
                    (dx == 1 && dy == 0 && target.is_none()) || (self.x == 1 && dx == 2 && dy == 0
                        && is_path_empty((self.x, self.y), new_position, &pieces)
                        && target.is_none()) || (dx == 1 && ady == 1 && target
                        == Some(PieceColor::Black))
                } else {
                    (dx == -1 && dy == 0 && target.is_none()) || (self.x == 6 && dx == -2 && dy
                        == 0 && is_path_empty((self.x, self.y), new_position, &pieces)
                        && target.is_none()) || (dx == -1 && ady == 1 && target
                        == Some(PieceColor::White))
                }
            },
        }
    }
}

/// Law: whatever its kind, a piece may never move onto a square held by a
/// piece of its own color, on any board where no two pieces share a square.
pub proof fn lemma_own_color_never_target(p: Piece, tx: int, ty: int, ps: Seq<Piece>, q: Piece)
    requires
        distinct_squares(ps),
        ps.contains(q),
        piece_at(q, tx, ty),
        q.color == p.color,
    ensures
        !valid_move(p, tx, ty, ps),
{
    lemma_occupant_unique(ps, tx, ty, q);
}

/// Law: a knight move heeds nothing but the target square.  Two boards that
/// agree on who holds the target yield the same verdict, so no intervening
/// piece ever disqualifies a knight move.
pub proof fn lemma_knight_jumps(p: Piece, tx: int, ty: int, ps1: Seq<Piece>, ps2: Seq<Piece>)
    requires
        p.piece_type == PieceType::Knight,
        color_at(ps1, tx, ty) == color_at(ps2, tx, ty),
    ensures
        valid_move(p, tx, ty, ps1) == valid_move(p, tx, ty, ps2),
{
}

/// Law: a rook, bishop or queen move is refused whenever the line to the
/// target is obstructed.
pub proof fn lemma_sliders_need_clear_path(p: Piece, tx: int, ty: int, ps: Seq<Piece>)
    requires
        p.piece_type == PieceType::Rook || p.piece_type == PieceType::Bishop || p.piece_type
            == PieceType::Queen,
        !path_clear(ps, p.x as int, p.y as int, tx, ty),
    ensures
        !valid_move(p, tx, ty, ps),
{
}

/// Law: pawn moves are direction-asymmetric.  A legal white-pawn move always
/// increases the file coordinate, a legal black-pawn move always decreases
/// it.
pub proof fn lemma_pawn_direction(p: Piece, tx: int, ty: int, ps: Seq<Piece>)
    requires
        p.piece_type == PieceType::Pawn,
        valid_move(p, tx, ty, ps),
    ensures
        p.color == PieceColor::White ==> tx > p.x as int,
        p.color == PieceColor::Black ==> tx < p.x as int,
{
}

} // verus!
