use vstd::prelude::*;

use crate::bitboard::{bit, lemma_bit_ops};
use crate::constants::{INIT_BOARD, INIT_COLOR};
use crate::hash::{lemma_xor_ac, lemma_xor_cancel, lemma_xor_zero, piece_key};
use crate::hash::{castle_delta, zobrist_key};
use crate::text::{chars_of, message, push_char};
use crate::types::{BitBoard, Board, MoveData, Piece, Side, Square};

verus! {

/// What stands on a square: a piece of a side, or nothing.
pub type Occupant = Option<(Side, Piece)>;

/// The key of what stands on the square with index `i`.
pub open spec fn occupant_key(o: Occupant, i: int) -> u64 {
    match o {
        Some((s, p)) => piece_key(s, p, i),
        None => 0u64,
    }
}

/// The xor of the keys of what stands on the first `n` squares.
pub open spec fn pieces_hash(occ: Seq<Occupant>, n: int) -> u64
    decreases n,
{
    if n <= 0 {
        0u64
    } else {
        pieces_hash(occ, n - 1) ^ occupant_key(occ[n - 1], n - 1)
    }
}

/// The xor of the keys of all pieces of a board.
pub open spec fn board_pieces_hash(occ: Seq<Occupant>) -> u64 {
    pieces_hash(occ, 64)
}

/// The piece with index `i` (0-6).
pub open spec fn piece_of_index(i: int) -> Piece {
    if i == 0 {
        Piece::Pawn
    } else if i == 1 {
        Piece::Knight
    } else if i == 2 {
        Piece::Bishop
    } else if i == 3 {
        Piece::Rook
    } else if i == 4 {
        Piece::Queen
    } else if i == 5 {
        Piece::King
    } else {
        Piece::Empty
    }
}

/// The side with index `i` (0 or 1).
pub open spec fn side_of_index(i: int) -> Side {
    if i == 0 {
        Side::White
    } else {
        Side::Black
    }
}

/// What stands on the square with index `i` in the initial position.
pub open spec fn initial_occupant(i: int) -> Occupant {
    let p = piece_of_index(INIT_BOARD[i] as int);
    let c = INIT_COLOR[i];
    if p != Piece::Empty && c < 2 {
        Some((side_of_index(c as int), p))
    } else {
        None
    }
}

/// The initial position, square by square.
pub open spec fn initial_view() -> Seq<Occupant> {
    Seq::new(64, |i: int| initial_occupant(i))
}

/// An empty board, square by square.
pub open spec fn empty_view() -> Seq<Occupant> {
    Seq::new(64, |i: int| None::<(Side, Piece)>)
}

/// Changing one square changes the hash by the keys of what stood there and what stands there now.
pub proof fn lemma_pieces_hash_update(occ: Seq<Occupant>, j: int, x: Occupant, n: int)
    requires
        0 <= j < occ.len(),
        n <= occ.len(),
    ensures
        pieces_hash(occ.update(j, x), n) == (if j < n {
            pieces_hash(occ, n) ^ occupant_key(occ[j], j) ^ occupant_key(x, j)
        } else {
            pieces_hash(occ, n)
        }),
    decreases n,
{
    if n <= 0 {
    } else {
        lemma_pieces_hash_update(occ, j, x, n - 1);
        let h = pieces_hash(occ, n - 1);
        let a = occupant_key(occ[j], j);
        let b = occupant_key(x, j);
        if j < n - 1 {
            let c = occupant_key(occ[n - 1], n - 1);
            assert((h ^ a ^ b) ^ c == (h ^ c) ^ a ^ b) by (bit_vector);
        } else if j == n - 1 {
            assert((h ^ b) == (h ^ a) ^ a ^ b) by (bit_vector);
        }
    }
}

/// An empty board hashes to zero.
pub proof fn lemma_pieces_hash_empty(n: int)
    requires
        0 <= n <= 64,
    ensures
        pieces_hash(empty_view(), n) == 0,
    decreases n,
{
    if n > 0 {
        lemma_pieces_hash_empty(n - 1);
        lemma_xor_zero(0u64);
    }
}

/// `new` holds the squares of `old` and the square `sq`.
pub open spec fn bits_set(old: BitBoard, new: BitBoard, sq: int) -> bool {
    forall|i: int| 0 <= i < 64 ==> #[trigger] new.has(i) == (old.has(i) || i == sq)
}

/// `new` holds the squares of `old` but the square `sq`.
pub open spec fn bits_cleared(old: BitBoard, new: BitBoard, sq: int) -> bool {
    forall|i: int| 0 <= i < 64 ==> #[trigger] new.has(i) == (old.has(i) && i != sq)
}

/// `new` holds the squares of `old` with `from` taken out and `to` put in.
pub open spec fn bits_moved(old: BitBoard, new: BitBoard, from: int, to: int) -> bool {
    forall|i: int| 0 <= i < 64 ==> #[trigger] new.has(i) == ((old.has(i) && i != from) || i == to)
}

/// The bitboards of `post` are those of `pre`, but for the pieces of `side` of kind `piece`,
/// the units of `side` and all units, each changed by `f`.
pub open spec fn only_changed(pre: Board, post: Board, side: int, piece: int, f: spec_fn(BitBoard, BitBoard) -> bool) -> bool {
    &&& f(pre.bit_pieces[side][piece], post.bit_pieces[side][piece])
    &&& forall|s: int, p: int| 0 <= s < 2 && 0 <= p < 6 && (s != side || p != piece) ==> #[trigger] post.bit_pieces[s][p] == pre.bit_pieces[s][p]
    &&& f(pre.bit_units[side], post.bit_units[side])
    &&& post.bit_units[1 - side] == pre.bit_units[1 - side]
    &&& f(pre.bit_all, post.bit_all)
}

proof fn lemma_add_view(pre: Board, post: Board, side: Side, piece: Piece, sq: int)
    requires
        pre.wf(),
        post.hash.wf(),
        0 <= sq < 64,
        pre.view()[sq] is None,
        piece != Piece::Empty,
        post.value@ == pre.value@.update(sq, piece),
        only_changed(pre, post, side as int, piece as int, |a: BitBoard, b: BitBoard| bits_set(a, b, sq)),
    ensures
        post.wf(),
        post.view() == pre.view().update(sq, Some((side, piece))),
{
    assert forall|i: int| 0 <= i < 64 implies #[trigger] post.square_wf(i) by {
        assert(pre.square_wf(i));
    }
    assert forall|i: int| 0 <= i < 64 implies #[trigger] post.occupant(i) == pre.view().update(sq, Some((side, piece)))[i] by {
        assert(pre.square_wf(i));
        assert(pre.occupant(i) == pre.view()[i]);
    }
    assert(post.view() =~= pre.view().update(sq, Some((side, piece))));
}

proof fn lemma_remove_view(pre: Board, post: Board, side: Side, piece: Piece, sq: int)
    requires
        pre.wf(),
        post.hash.wf(),
        0 <= sq < 64,
        pre.view()[sq] == Some((side, piece)),
        post.value@ == pre.value@.update(sq, Piece::Empty),
        only_changed(pre, post, side as int, piece as int, |a: BitBoard, b: BitBoard| bits_cleared(a, b, sq)),
    ensures
        post.wf(),
        post.view() == pre.view().update(sq, None),
{
    assert forall|i: int| 0 <= i < 64 implies #[trigger] post.square_wf(i) by {
        assert(pre.square_wf(i));
    }
    assert forall|i: int| 0 <= i < 64 implies #[trigger] post.occupant(i) == pre.view().update(sq, None)[i] by {
        assert(pre.square_wf(i));
        assert(pre.occupant(i) == pre.view()[i]);
    }
    assert(post.view() =~= pre.view().update(sq, None));
}

proof fn lemma_move_view(pre: Board, post: Board, side: Side, piece: Piece, from: int, to: int)
    requires
        pre.wf(),
        post.hash.wf(),
        0 <= from < 64,
        0 <= to < 64,
        pre.view()[from] == Some((side, piece)),
        pre.view()[to] is None,
        post.value@ == pre.value@.update(from, Piece::Empty).update(to, piece),
        only_changed(pre, post, side as int, piece as int, |a: BitBoard, b: BitBoard| bits_moved(a, b, from, to)),
    ensures
        post.wf(),
        post.view() == pre.view().update(from, None).update(to, Some((side, piece))),
{
    assert forall|i: int| 0 <= i < 64 implies #[trigger] post.square_wf(i) by {
        assert(pre.square_wf(i));
    }
    let target = pre.view().update(from, None).update(to, Some((side, piece)));
    assert forall|i: int| 0 <= i < 64 implies #[trigger] post.occupant(i) == target[i] by {
        assert(pre.square_wf(i));
        assert(pre.occupant(i) == pre.view()[i]);
    }
    assert(post.view() =~= target);
}

proof fn lemma_key_add(k: u64, h: u64, pk: u64)
    ensures
        (k ^ pk) ^ (h ^ 0u64 ^ pk) == k ^ h,
        (k ^ pk) ^ (h ^ pk ^ 0u64) == k ^ h,
{
    assert((k ^ pk) ^ (h ^ 0u64 ^ pk) == k ^ h) by (bit_vector);
    assert((k ^ pk) ^ (h ^ pk ^ 0u64) == k ^ h) by (bit_vector);
}

proof fn lemma_key_move(k: u64, h: u64, a: u64, b: u64)
    ensures
        (k ^ a ^ b) ^ ((h ^ a ^ 0u64) ^ 0u64 ^ b) == k ^ h,
{
    assert((k ^ a ^ b) ^ ((h ^ a ^ 0u64) ^ 0u64 ^ b) == k ^ h) by (bit_vector);
}

/// On a well-formed board the bitboards say what stands on each square.
pub proof fn lemma_wf_bits(b: Board, t: int)
    requires
        b.wf(),
        0 <= t < 64,
    ensures
        forall|s: int, p: int|
            0 <= s < 2 && 0 <= p < 6 ==> #[trigger] b.bit_pieces[s][p].has(t) == (b.view()[t] == Some(
                (side_of_index(s), piece_of_index(p)),
            )),
        b.bit_all.has(t) == (b.view()[t] is Some),
        b.bit_units[0].has(t) == (b.view()[t] matches Some((s, _)) && s == Side::White),
        b.bit_units[1].has(t) == (b.view()[t] matches Some((s, _)) && s == Side::Black),
{
    assert(b.square_wf(t));
    assert forall|s: int, p: int| 0 <= s < 2 && 0 <= p < 6 implies #[trigger] b.bit_pieces[s][p].has(t) == (
    b.view()[t] == Some((side_of_index(s), piece_of_index(p)))) by {
        assert(b.bit_pieces[s][p].has(t) == (b.bit_units[s].has(t) && b.value[t] as int == p));
    }
}

/// A board whose key and table alone changed keeps its pieces and stays well formed.
pub proof fn lemma_hash_only_change(pre: Board, post: Board)
    requires
        pre.wf(),
        post.value == pre.value,
        post.bit_pieces == pre.bit_pieces,
        post.bit_units == pre.bit_units,
        post.bit_all == pre.bit_all,
        post.hash.wf(),
    ensures
        post.wf(),
        post.view() == pre.view(),
{
    assert forall|i: int| 0 <= i < 64 implies #[trigger] post.square_wf(i) by {
        assert(pre.square_wf(i));
    }
    assert(post.view() =~= pre.view());
}

/// `c` names a file (a-h).
pub open spec fn is_file_char(c: char) -> bool {
    'a' <= c <= 'h'
}

/// `c` names a rank (1-8).
pub open spec fn is_rank_char(c: char) -> bool {
    '1' <= c <= '8'
}

/// The index of the square named by a file and a rank character.
pub open spec fn uci_square(f: char, r: char) -> int {
    (r as int - '1' as int) * 8 + (f as int - 'a' as int)
}

/// The piece named by a promotion character (q, r, b, n).
pub open spec fn promotion_of(c: char) -> Option<Piece> {
    if c == 'q' {
        Some(Piece::Queen)
    } else if c == 'r' {
        Some(Piece::Rook)
    } else if c == 'b' {
        Some(Piece::Bishop)
    } else if c == 'n' {
        Some(Piece::Knight)
    } else {
        None
    }
}

/// The move a UCI text names (from, to, promotion), when its characters are well formed.
pub open spec fn uci_parse(c: Seq<char>) -> Option<(int, int, Option<Piece>)> {
    if c.len() < 4 || c.len() > 5 {
        None
    } else if !(is_file_char(c[0]) && is_rank_char(c[1]) && is_file_char(c[2]) && is_rank_char(c[3])) {
        None
    } else if c.len() == 5 && promotion_of(c[4]) is None {
        None
    } else {
        Some((uci_square(c[0], c[1]), uci_square(c[2], c[3]), if c.len() == 5 { promotion_of(c[4]) } else { None }))
    }
}

/// The name of the square with index `i`, such as `e4`.
pub open spec fn square_name(i: int) -> Seq<char> {
    seq![((i % 8) + 97) as char, ((i / 8) + 49) as char]
}

/// The letter of a promotion piece; any other piece is written as a queen.
pub open spec fn promotion_char(p: Piece) -> char {
    if p == Piece::Knight {
        'n'
    } else if p == Piece::Bishop {
        'b'
    } else if p == Piece::Rook {
        'r'
    } else {
        'q'
    }
}

/// The UCI text of a move; `pretty` puts an arrow between the squares.
pub open spec fn uci_text(from: int, to: int, promote: Option<Piece>, pretty: bool) -> Seq<char> {
    square_name(from) + (if pretty { seq![' ', '-', '>', ' '] } else { Seq::<char>::empty() }) + square_name(to) + (match promote {
        Some(p) => seq![promotion_char(p)],
        None => Seq::<char>::empty(),
    })
}

/// The piece a promotion turns into once written and read back.
pub open spec fn normalized_promotion(p: Option<Piece>) -> Option<Piece> {
    match p {
        Some(q) => promotion_of(promotion_char(q)),
        None => None,
    }
}

/// Writing a move in UCI notation and reading it back gives the same squares, and
/// the same promotion piece (any piece other than knight, bishop or rook reads back as a queen).
pub proof fn lemma_uci_roundtrip(from: int, to: int, promote: Option<Piece>)
    requires
        0 <= from < 64,
        0 <= to < 64,
    ensures
        uci_parse(uci_text(from, to, promote, false)) == Some((from, to, normalized_promotion(promote))),
{
    let t = uci_text(from, to, promote, false);
    assert(t[0] == ((from % 8) + 97) as char);
    assert(t[1] == ((from / 8) + 49) as char);
    assert(t[2] == ((to % 8) + 97) as char);
    assert(t[3] == ((to / 8) + 49) as char);
    if let Some(p) = promote {
        assert(t.len() == 5);
        assert(t[4] == promotion_char(p));
    } else {
        assert(t.len() == 4);
    }
}

/// What stands on the square with index `i` in the initial position.
fn initial_piece(i: usize) -> (r: Option<(Side, Piece)>)
    requires
        i < 64,
    ensures
        r == initial_occupant(i as int),
        r matches Some((s, p)) ==> p != Piece::Empty,
{
    let piece = Piece::try_from(INIT_BOARD[i]).unwrap();
    let side_val = INIT_COLOR[i];
    proof {
        assert(piece == piece_of_index(INIT_BOARD[i as int] as int));
    }
    if piece != Piece::Empty && side_val < 2 {
        let side = Side::try_from(side_val).unwrap();
        Some((side, piece))
    } else {
        None
    }
}

impl Board {
    /// What stands on the square with index `i`, read from the piece array and
    /// the white units.
    pub open spec fn occupant(&self, i: int) -> Occupant {
        if self.value[i] == Piece::Empty {
            None
        } else if self.bit_units[0].has(i) {
            Some((Side::White, self.value[i]))
        } else {
            Some((Side::Black, self.value[i]))
        }
    }

    /// The board, square by square.
    pub open spec fn view(&self) -> Seq<Occupant> {
        Seq::new(64, |i: int| self.occupant(i))
    }

    /// The bitboards agree with the piece array on the square with index `i`.
    pub open spec fn square_wf(&self, i: int) -> bool {
        &&& (self.value[i] != Piece::Empty) == self.bit_all.has(i)
        &&& !(self.bit_units[0].has(i) && self.bit_units[1].has(i))
        &&& (self.bit_units[0].has(i) || self.bit_units[1].has(i)) == self.bit_all.has(i)
        &&& forall|s: int, p: int|
            0 <= s < 2 && 0 <= p < 6 ==> #[trigger] self.bit_pieces[s][p].has(i) == (
            self.bit_units[s].has(i) && self.value[i] as int == p)
    }

    /// The bitboards agree with the piece array on every square, and the
    /// transposition table has its full size.
    pub open spec fn wf(&self) -> bool {
        &&& self.hash.wf()
        &&& forall|i: int| 0 <= i < 64 ==> #[trigger] self.square_wf(i)
    }

    /// The key, with the keys of the pieces taken out: what it holds besides the pieces.
    pub open spec fn key_rest(&self) -> u64 {
        self.hash.current_key ^ board_pieces_hash(self.view())
    }

    /// An empty board with a zero key.
    pub fn empty() -> (r: Self)
        ensures
            r.wf(),
            r.view() == empty_view(),
            r.hash.current_key == 0,
            r.key_rest() == 0,
            forall|i: int| 0 <= i < 64 ==> r.value[i] == Piece::Empty,
            r.bit_all.0 == 0,
            r.bit_units[0].0 == 0 && r.bit_units[1].0 == 0,
            forall|s: int, p: int| 0 <= s < 2 && 0 <= p < 6 ==> #[trigger] r.bit_pieces[s][p].0 == 0,
    {
        let r = Board {
            value: [Piece::Empty; 64],
            bit_pieces: [[BitBoard(0); 6]; 2],
            bit_units: [BitBoard(0); 2],
            bit_all: BitBoard(0),
            hash: crate::hash::Hash::new(),
        };
        proof {
            assert forall|i: int| 0 <= i < 64 implies #[trigger] r.square_wf(i) by {
                lemma_bit_ops(0u64, 0u64, i);
            }
            assert(r.view() =~= empty_view());
            lemma_pieces_hash_empty(64);
            lemma_xor_zero(0u64);
        }
        r
    }

    /// Puts a piece of a side on a square (nothing happens for `Empty`).
    pub fn add_piece(&mut self, side: Side, piece: Piece, square: Square)
        ensures
            piece == Piece::Empty ==> *final(self) == *old(self),
            piece != Piece::Empty ==> {
                &&& final(self).value@ == old(self).value@.update(square as int, piece)
                &&& final(self).hash.current_key == old(self).hash.current_key ^ piece_key(side, piece, square as int)
                &&& final(self).hash.table() == old(self).hash.table()
                &&& final(self).hash.wf() == old(self).hash.wf()
                &&& final(self).bit_pieces[side as int][piece as int].0 == old(self).bit_pieces[side as int][piece as int].0 | (1u64 << (square as u64))
                &&& forall|s: int, p: int| 0 <= s < 2 && 0 <= p < 6 && (s != side as int || p != piece as int) ==> #[trigger] final(self).bit_pieces[s][p] == old(self).bit_pieces[s][p]
                &&& final(self).bit_units[side as int].0 == old(self).bit_units[side as int].0 | (1u64 << (square as u64))
                &&& final(self).bit_units[1 - side as int] == old(self).bit_units[1 - side as int]
                &&& final(self).bit_all.0 == old(self).bit_all.0 | (1u64 << (square as u64))
            },
            old(self).wf() && old(self).view()[square as int] is None && piece != Piece::Empty ==> {
                &&& final(self).wf()
                &&& final(self).view() == old(self).view().update(square as int, Some((side, piece)))
                &&& final(self).key_rest() == old(self).key_rest()
            },
    {
        if piece == Piece::Empty {
            return;
        }
        let ghost pre = *self;
        self.value[square as usize] = piece;
        self.hash.toggle_piece(side, piece, square);
        self.bit_pieces[side as usize][piece as usize].set_bit(square);
        self.bit_units[side as usize].set_bit(square);
        self.bit_all.set_bit(square);
        proof {
            if pre.wf() && pre.view()[square as int] is None {
                let sq = square as int;
                lemma_add_view(pre, *self, side, piece, sq);
                lemma_pieces_hash_update(pre.view(), sq, Some((side, piece)), 64);
                lemma_key_add(pre.hash.current_key, board_pieces_hash(pre.view()), piece_key(side, piece, sq));
            }
        }
    }

    /// Takes a piece of a side off a square (nothing happens for `Empty`).
    pub fn remove_piece(&mut self, side: Side, piece: Piece, square: Square)
        ensures
            piece == Piece::Empty ==> *final(self) == *old(self),
            piece != Piece::Empty ==> {
                &&& final(self).value@ == old(self).value@.update(square as int, Piece::Empty)
                &&& final(self).hash.current_key == old(self).hash.current_key ^ piece_key(side, piece, square as int)
                &&& final(self).hash.table() == old(self).hash.table()
                &&& final(self).hash.wf() == old(self).hash.wf()
                &&& final(self).bit_pieces[side as int][piece as int].0 == old(self).bit_pieces[side as int][piece as int].0 & !(1u64 << (square as u64))
                &&& forall|s: int, p: int| 0 <= s < 2 && 0 <= p < 6 && (s != side as int || p != piece as int) ==> #[trigger] final(self).bit_pieces[s][p] == old(self).bit_pieces[s][p]
                &&& final(self).bit_units[side as int].0 == old(self).bit_units[side as int].0 & !(1u64 << (square as u64))
                &&& final(self).bit_units[1 - side as int] == old(self).bit_units[1 - side as int]
                &&& final(self).bit_all.0 == old(self).bit_all.0 & !(1u64 << (square as u64))
            },
            old(self).wf() && old(self).view()[square as int] == Some((side, piece)) ==> {
                &&& final(self).wf()
                &&& final(self).view() == old(self).view().update(square as int, None)
                &&& final(self).key_rest() == old(self).key_rest()
            },
    {
        if piece == Piece::Empty {
            return;
        }
        let ghost pre = *self;
        self.hash.toggle_piece(side, piece, square);
        self.value[square as usize] = Piece::Empty;
        self.bit_pieces[side as usize][piece as usize].clear_bit(square);
        self.bit_units[side as usize].clear_bit(square);
        self.bit_all.clear_bit(square);
        proof {
            if pre.wf() && pre.view()[square as int] == Some((side, piece)) {
                let sq = square as int;
                lemma_remove_view(pre, *self, side, piece, sq);
                lemma_pieces_hash_update(pre.view(), sq, None, 64);
                lemma_key_add(pre.hash.current_key, board_pieces_hash(pre.view()), piece_key(side, piece, sq));
            }
        }
    }

    /// Moves a piece of a side from one square to another (nothing happens for `Empty`).
    #[verifier::rlimit(40)]
    pub fn update_piece(&mut self, side: Side, piece: Piece, from: Square, to: Square)
        ensures
            piece == Piece::Empty ==> *final(self) == *old(self),
            piece != Piece::Empty ==> {
                &&& final(self).value@ == old(self).value@.update(from as int, Piece::Empty).update(to as int, piece)
                &&& final(self).hash.current_key == old(self).hash.current_key ^ piece_key(side, piece, from as int) ^ piece_key(side, piece, to as int)
                &&& final(self).hash.table() == old(self).hash.table()
                &&& final(self).hash.wf() == old(self).hash.wf()
                &&& final(self).bit_pieces[side as int][piece as int].0 == (old(self).bit_pieces[side as int][piece as int].0 & !(1u64 << (from as u64))) | (1u64 << (to as u64))
                &&& forall|s: int, p: int| 0 <= s < 2 && 0 <= p < 6 && (s != side as int || p != piece as int) ==> #[trigger] final(self).bit_pieces[s][p] == old(self).bit_pieces[s][p]
                &&& final(self).bit_units[side as int].0 == (old(self).bit_units[side as int].0 & !(1u64 << (from as u64))) | (1u64 << (to as u64))
                &&& final(self).bit_units[1 - side as int] == old(self).bit_units[1 - side as int]
                &&& final(self).bit_all.0 == (old(self).bit_all.0 & !(1u64 << (from as u64))) | (1u64 << (to as u64))
            },
            old(self).wf() && old(self).view()[from as int] == Some((side, piece))
                && old(self).view()[to as int] is None ==> {
                &&& final(self).wf()
                &&& final(self).view() == old(self).view().update(from as int, None).update(to as int, Some((side, piece)))
                &&& final(self).key_rest() == old(self).key_rest()
            },
    {
        if piece == Piece::Empty {
            return;
        }
        let ghost pre = *self;
        self.bit_units[side as usize].clear_bit(from);
        self.bit_units[side as usize].set_bit(to);
        self.bit_all.clear_bit(from);
        self.bit_all.set_bit(to);
        self.hash.toggle_piece(side, piece, from);
        self.hash.toggle_piece(side, piece, to);
        self.value[from as usize] = Piece::Empty;
        self.value[to as usize] = piece;
        self.bit_pieces[side as usize][piece as usize].clear_bit(from);
        self.bit_pieces[side as usize][piece as usize].set_bit(to);
        proof {
            if pre.wf() && pre.view()[from as int] == Some((side, piece)) && pre.view()[to as int] is None {
                let f = from as int;
                let t = to as int;
                assert(bits_moved(pre.bit_all, self.bit_all, f, t));
                assert(bits_moved(pre.bit_units[side as int], self.bit_units[side as int], f, t));
                assert(bits_moved(pre.bit_pieces[side as int][piece as int], self.bit_pieces[side as int][piece as int], f, t));
                lemma_move_view(pre, *self, side, piece, f, t);
                let mid = pre.view().update(f, None);
                lemma_pieces_hash_update(pre.view(), f, None, 64);
                lemma_pieces_hash_update(mid, t, Some((side, piece)), 64);
                lemma_key_move(pre.hash.current_key, board_pieces_hash(pre.view()), piece_key(side, piece, f), piece_key(side, piece, t));
            }
        }
    }

    /// The initial position, white to move with all castle rights: the key holds
    /// the pieces, the side to move and the four castle rights.
    pub fn new() -> (r: Self)
        ensures
            r.wf(),
            r.view() == initial_view(),
            r.key_rest() == zobrist_key(780) ^ castle_delta(0, 15),
    {
        let mut board = Board::empty();
        board.hash.toggle_side_to_move();
        board.hash.update_castle_rights(0, 0b1111);
        proof {
            let k = zobrist_key(780);
            let c = castle_delta(0, 15);
            assert((0u64 ^ k ^ c) ^ 0u64 == k ^ c) by (bit_vector);
            lemma_pieces_hash_empty(64);
            assert(board.view() =~= empty_view());
            assert(Seq::new(64, |j: int| if j < 0 { initial_occupant(j) } else { None }) =~= empty_view());
            assert forall|j: int| 0 <= j < 64 implies #[trigger] board.square_wf(j) by {
                lemma_bit_ops(0u64, 0u64, j);
            }
        }
        let mut i: usize = 0;
        while i < 64
            invariant
                i <= 64,
                board.wf(),
                board.view() == Seq::new(64, |j: int| if j < i { initial_occupant(j) } else { None }),
                board.key_rest() == zobrist_key(780) ^ castle_delta(0, 15),
            decreases 64 - i,
        {
            let square = crate::tables::square_of(i);
            let ghost before = board.view();
            match initial_piece(i) {
                Some((side, piece)) => {
                    board.add_piece(side, piece, square);
                }
                None => {}
            }
            proof {
                assert(board.view() =~= Seq::new(64, |j: int| if j < i + 1 { initial_occupant(j) } else { None }));
            }
            i = i + 1;
        }
        proof {
            assert(board.view() =~= initial_view());
        }
        board
    }

    /// Reads a move in UCI notation (such as "e2e4" or "e7e8q"): its squares and promotion piece.
    pub fn move_from_uci_string(move_str: &str) -> (r: Result<MoveData, String>)
        ensures
            ({
                let c = move_str@;
                let n = move_str.len();
                if n < 4 || n > 5 {
                    r matches Err(e) && e@ == "Invalid move string length: "@ + c
                } else if !(c.len() >= 4 && is_file_char(c[0]) && is_rank_char(c[1]) && is_file_char(c[2]) && is_rank_char(
                    c[3],
                )) {
                    r matches Err(e) && e@ == "Invalid move format: "@ + c
                } else if c.len() == 5 && promotion_of(c[4]) is None {
                    r matches Err(e) && e@ == "Invalid promotion piece: "@ + seq![c[4]]
                } else {
                    r matches Ok(m) && m.from as int == uci_square(c[0], c[1]) && m.to as int == uci_square(c[2], c[3])
                        && m.promote == (if c.len() == 5 { promotion_of(c[4]) } else { None::<Piece> })
                }
            }),
            4 <= move_str.len() <= 5 && move_str@.len() <= 5 ==> (r is Ok <==> uci_parse(move_str@) is Some),
    {
        let n = move_str.len();
        if n < 4 || n > 5 {
            proof { reveal_strlit("Invalid move string length: "); }
            return Err(message("Invalid move string length: ", move_str));
        }
        let chars = chars_of(move_str);
        if chars.len() < 4 || chars[0] < 'a' || chars[0] > 'h' || chars[1] < '1' || chars[1] > '8' || chars[2] < 'a' || chars[2] > 'h' || chars[3] < '1' || chars[3] > '8' {
            proof { reveal_strlit("Invalid move format: "); }
            return Err(message("Invalid move format: ", move_str));
        }
        let from_file = (chars[0] as u8 - 97) as usize;
        let from_rank = (chars[1] as u8 - 49) as usize;
        let to_file = (chars[2] as u8 - 97) as usize;
        let to_rank = (chars[3] as u8 - 49) as usize;
        let from = crate::tables::square_of(from_rank * 8 + from_file);
        let to = crate::tables::square_of(to_rank * 8 + to_file);
        let promote = if chars.len() == 5 {
            let c4 = chars[4];
            if c4 == 'q' {
                Some(Piece::Queen)
            } else if c4 == 'r' {
                Some(Piece::Rook)
            } else if c4 == 'b' {
                Some(Piece::Bishop)
            } else if c4 == 'n' {
                Some(Piece::Knight)
            } else {
                let mut e = String::from_str("Invalid promotion piece: ");
                push_char(&mut e, c4);
                proof { reveal_strlit("Invalid promotion piece: "); }
                return Err(e);
            }
        } else {
            None
        };
        Ok(MoveData { from, to, promote })
    }

    /// Writes a move in UCI notation (such as "e2e4" or "e7e8q"); `pretty` puts " -> "
    /// between the squares. A promotion to anything but a knight, bishop or rook is written as a queen.
    pub fn move_to_uci_string(from: Square, to: Square, promote: Option<Piece>, pretty: bool) -> (r: String)
        ensures
            r@ == uci_text(from as int, to as int, promote, pretty),
    {
        let f = from as u8;
        let t = to as u8;
        let mut v: Vec<char> = Vec::new();
        v.push(((f % 8) + 97) as char);
        v.push(((f / 8) + 49) as char);
        if pretty {
            v.push(' ');
            v.push('-');
            v.push('>');
            v.push(' ');
        }
        v.push(((t % 8) + 97) as char);
        v.push(((t / 8) + 49) as char);
        if let Some(piece) = promote {
            let c = match piece {
                Piece::Knight => 'n',
                Piece::Bishop => 'b',
                Piece::Rook => 'r',
                _ => 'q',
            };
            v.push(c);
        }
        proof {
            assert(v@ =~= uci_text(from as int, to as int, promote, pretty));
        }
        crate::text::string_of(&v)
    }
}

} // verus!
