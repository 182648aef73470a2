use vstd::prelude::*;

use crate::board::Occupant;
use crate::tables::square_of;
use crate::text::{chars_message, decimal, number_message};
use crate::types::{Board, Game, Piece, Side};
use crate::position::Position;
use crate::hash::{castle_delta, en_passant_key, zobrist_key};

verus! {

/// The pieces of `s` between the separators `sep`, in order (two separators in a
/// row, or one at an end, give an empty piece).
pub open spec fn split_spec(s: Seq<char>, sep: char) -> Seq<Seq<char>>
    decreases s.len(),
{
    if s.len() == 0 {
        seq![Seq::<char>::empty()]
    } else {
        let rest = split_spec(s.drop_last(), sep);
        if s.last() == sep {
            rest.push(Seq::<char>::empty())
        } else {
            rest.update(rest.len() - 1, rest.last().push(s.last()))
        }
    }
}

/// Splitting always gives at least one piece.
pub proof fn lemma_split_nonempty(s: Seq<char>, sep: char)
    ensures
        split_spec(s, sep).len() >= 1,
    decreases s.len(),
{
    if s.len() > 0 {
        lemma_split_nonempty(s.drop_last(), sep);
    }
}

/// An ASCII digit.
pub open spec fn is_digit(c: char) -> bool {
    '0' <= c <= '9'
}

/// The value of an ASCII digit.
pub open spec fn digit_value(c: char) -> int {
    c as int - 48
}

/// The value of a string of decimal digits.
pub open spec fn digits_value(s: Seq<char>) -> int
    decreases s.len(),
{
    if s.len() == 0 {
        0
    } else {
        digits_value(s.drop_last()) * 10 + digit_value(s.last())
    }
}

/// Every character is a decimal digit.
pub open spec fn all_digits(s: Seq<char>) -> bool {
    forall|i: int| 0 <= i < s.len() ==> #[trigger] is_digit(s[i])
}

/// The number that an unsigned integer text holds: an optional `+` and one or
/// more decimal digits (what std's `str::parse` accepts for an unsigned type,
/// before the range check).
pub open spec fn unsigned_text(s: Seq<char>) -> Option<int> {
    let d = if s.len() > 0 && s[0] == '+' { s.drop_first() } else { s };
    if d.len() > 0 && all_digits(d) {
        Some(digits_value(d))
    } else {
        None
    }
}

/// The number an unsigned integer text holds when it is at most `max`.
pub open spec fn parse_unsigned_spec(s: Seq<char>, max: int) -> Option<int> {
    match unsigned_text(s) {
        Some(v) => if v <= max { Some(v) } else { None },
        None => None,
    }
}

/// The side and piece a FEN letter stands for.
pub open spec fn piece_of_char(c: char) -> Option<(Side, Piece)> {
    if c == 'K' {
        Some((Side::White, Piece::King))
    } else if c == 'Q' {
        Some((Side::White, Piece::Queen))
    } else if c == 'R' {
        Some((Side::White, Piece::Rook))
    } else if c == 'B' {
        Some((Side::White, Piece::Bishop))
    } else if c == 'N' {
        Some((Side::White, Piece::Knight))
    } else if c == 'P' {
        Some((Side::White, Piece::Pawn))
    } else if c == 'k' {
        Some((Side::Black, Piece::King))
    } else if c == 'q' {
        Some((Side::Black, Piece::Queen))
    } else if c == 'r' {
        Some((Side::Black, Piece::Rook))
    } else if c == 'b' {
        Some((Side::Black, Piece::Bishop))
    } else if c == 'n' {
        Some((Side::Black, Piece::Knight))
    } else if c == 'p' {
        Some((Side::Black, Piece::Pawn))
    } else {
        None
    }
}

/// The file reached in a rank text after its first `n` characters: a digit skips
/// that many files, any other character takes one.
pub open spec fn rank_file(r: Seq<char>, n: int) -> int
    decreases n,
{
    if n <= 0 {
        0
    } else {
        rank_file(r, n - 1) + (if is_digit(r[n - 1]) { digit_value(r[n - 1]) } else { 1 })
    }
}

/// The character at `i` of a rank text stops the load: a piece past the eighth
/// file, or a character that is neither a digit nor a piece letter.
pub open spec fn bad_at(r: Seq<char>, i: int) -> bool {
    !is_digit(r[i]) && (rank_file(r, i) >= 8 || piece_of_char(r[i]) is None)
}

/// The first character among the first `n` of a rank text that stops the load.
pub open spec fn first_bad(r: Seq<char>, n: int) -> Option<int>
    decreases n,
{
    if n <= 0 {
        None
    } else {
        match first_bad(r, n - 1) {
            Some(i) => Some(i),
            None => if bad_at(r, n - 1) { Some(n - 1) } else { None },
        }
    }
}

/// Why the rank text `r` of rank `rank` (0-7) is refused, if it is.
pub open spec fn rank_error(r: Seq<char>, rank: int) -> Option<Seq<char>> {
    match first_bad(r, r.len() as int) {
        Some(i) => Some(
            if rank_file(r, i) >= 8 {
                "Invalid FEN: too many squares in rank "@ + decimal((rank + 1) as nat)
            } else {
                "Invalid piece character: "@ + seq![r[i]]
            },
        ),
        None => if rank_file(r, r.len() as int) != 8 {
            Some(
                "Invalid FEN: rank "@ + decimal((rank + 1) as nat) + " has "@ + decimal(
                    rank_file(r, r.len() as int) as nat,
                ) + " squares instead of 8"@,
            )
        } else {
            None
        },
    }
}

/// What the first `n` characters of a rank text put on file `f`.
pub open spec fn rank_occupant(r: Seq<char>, n: int, f: int) -> Occupant
    decreases n,
{
    if n <= 0 {
        None
    } else if !is_digit(r[n - 1]) && rank_file(r, n - 1) == f {
        piece_of_char(r[n - 1])
    } else {
        rank_occupant(r, n - 1, f)
    }
}

/// The board the eight rank texts describe (the first one is the eighth rank).
pub open spec fn ranks_view(ranks: Seq<Seq<char>>) -> Seq<Occupant> {
    Seq::new(64, |sq: int| rank_occupant(ranks[7 - sq / 8], ranks[7 - sq / 8].len() as int, sq % 8))
}

/// The first refused rank text among the first `k`, and why.
pub open spec fn ranks_error(ranks: Seq<Seq<char>>, k: int) -> Option<Seq<char>>
    decreases k,
{
    if k <= 0 {
        None
    } else {
        match ranks_error(ranks, k - 1) {
            Some(e) => Some(e),
            None => rank_error(ranks[k - 1], 7 - (k - 1)),
        }
    }
}


/// Splits a text at each separator, keeping empty pieces.
pub fn split_chars(s: &Vec<char>, sep: char) -> (r: Vec<Vec<char>>)
    ensures
        r@.len() == split_spec(s@, sep).len(),
        forall|i: int| 0 <= i < r@.len() ==> #[trigger] r@[i]@ == split_spec(s@, sep)[i],
{
    let mut parts: Vec<Vec<char>> = Vec::new();
    let mut cur: Vec<char> = Vec::new();
    let mut i: usize = 0;
    proof {
        assert(s@.take(0) =~= Seq::<char>::empty());
    }
    while i < s.len()
        invariant
            i <= s@.len(),
            parts@.len() + 1 == split_spec(s@.take(i as int), sep).len(),
            forall|j: int| 0 <= j < parts@.len() ==> #[trigger] parts@[j]@ == split_spec(s@.take(i as int), sep)[j],
            cur@ == split_spec(s@.take(i as int), sep).last(),
        decreases s.len() - i,
    {
        let ghost before = split_spec(s@.take(i as int), sep);
        proof {
            assert(s@.take(i as int + 1).drop_last() =~= s@.take(i as int));
            assert(s@.take(i as int + 1).last() == s@[i as int]);
        }
        let c = s[i];
        if c == sep {
            parts.push(cur);
            cur = Vec::new();
            proof {
                assert(cur@ =~= Seq::<char>::empty());
            }
        } else {
            cur.push(c);
        }
        i = i + 1;
    }
    proof {
        assert(s@.take(s@.len() as int) =~= s@);
    }
    parts.push(cur);
    parts
}

/// Longer digit strings are worth at least as much as their prefixes.
proof fn lemma_digits_monotone(d: Seq<char>, k: int, m: int)
    requires
        0 <= k <= m <= d.len(),
        all_digits(d),
    ensures
        digits_value(d.take(k)) <= digits_value(d.take(m)),
        digits_value(d.take(k)) >= 0,
    decreases m - k,
{
    if k < m {
        lemma_digits_monotone(d, k, m - 1);
        assert(d.take(m).drop_last() =~= d.take(m - 1));
        assert(is_digit(d[m - 1]));
    } else {
        lemma_digits_nonneg(d.take(k));
    }
}

proof fn lemma_digits_nonneg(d: Seq<char>)
    requires
        all_digits(d),
    ensures
        digits_value(d) >= 0,
    decreases d.len(),
{
    if d.len() > 0 {
        assert(all_digits(d.drop_last())) by {
            assert forall|i: int| 0 <= i < d.drop_last().len() implies #[trigger] is_digit(d.drop_last()[i]) by {
                assert(is_digit(d[i]));
            }
        }
        lemma_digits_nonneg(d.drop_last());
        assert(is_digit(d[d.len() - 1]));
    }
}

/// Reads an unsigned integer text (an optional `+`, then decimal digits) whose
/// value is at most `max`.
pub fn parse_unsigned(s: &Vec<char>, max: u64) -> (r: Option<u64>)
    ensures
        r matches Some(v) ==> parse_unsigned_spec(s@, max as int) == Some(v as int),
        r is None ==> parse_unsigned_spec(s@, max as int) is None,
{
    let start: usize = if s.len() > 0 && s[0] == '+' { 1 } else { 0 };
    let ghost d = if s@.len() > 0 && s@[0] == '+' { s@.drop_first() } else { s@ };
    proof {
        assert(d =~= s@.subrange(start as int, s@.len() as int));
    }
    if start == s.len() {
        return None;
    }
    let mut value: u64 = 0;
    let mut i: usize = start;
    proof {
        assert(d.take(0) =~= Seq::<char>::empty());
    }
    while i < s.len()
        invariant
            start <= i <= s@.len(),
            d =~= s@.subrange(start as int, s@.len() as int),
            d == (if s@.len() > 0 && s@[0] == '+' { s@.drop_first() } else { s@ }),
            d.len() > 0,
            forall|j: int| 0 <= j < i - start ==> #[trigger] is_digit(d[j]),
            value as int == digits_value(d.take(i - start)),
            value <= max,
        decreases s.len() - i,
    {
        let c = s[i];
        let ghost k = i - start;
        proof {
            assert(d[k] == c);
            assert(d.take(k + 1).drop_last() =~= d.take(k));
        }
        if !('0' <= c && c <= '9') {
            proof {
                assert(!is_digit(d[k]));
                assert(!all_digits(d));
                assert(unsigned_text(s@) is None);
            }
            return None;
        }
        let dv: u64 = (c as u32 - 48) as u64;
        if dv > max || value > (max - dv) / 10 {
            proof {
                assert(value * 10 + dv > max) by (nonlinear_arith)
                    requires
                        dv > max || value > (max - dv) / 10,
                        dv <= max ==> (max - dv) / 10 * 10 <= max - dv,
                        dv <= max ==> max - dv < (max - dv) / 10 * 10 + 10,
                ;
                assert(dv as int == digit_value(d[k]));
                assert(digits_value(d.take(k + 1)) == value * 10 + dv);
                if all_digits(d) {
                    lemma_digits_monotone(d, k + 1, d.len() as int);
                    assert(d.take(d.len() as int) =~= d);
                    assert(digits_value(d) > max);
                }
                assert(parse_unsigned_spec(s@, max as int) is None);
            }
            return None;
        }
        proof {
            assert(value * 10 + dv <= max) by (nonlinear_arith)
                requires
                    value <= (max - dv) / 10,
                    dv <= max,
                    (max - dv) / 10 * 10 <= max - dv,
            ;
        }
        value = value * 10 + dv;
        i = i + 1;
    }
    proof {
        assert(d.take(d.len() as int) =~= d);
        assert(all_digits(d));
    }
    Some(value)
}


/// The side and piece of a FEN letter.
pub fn piece_from_char(c: char) -> (r: Option<(Side, Piece)>)
    ensures
        r == piece_of_char(c),
{
    match c {
        'K' => Some((Side::White, Piece::King)),
        'Q' => Some((Side::White, Piece::Queen)),
        'R' => Some((Side::White, Piece::Rook)),
        'B' => Some((Side::White, Piece::Bishop)),
        'N' => Some((Side::White, Piece::Knight)),
        'P' => Some((Side::White, Piece::Pawn)),
        'k' => Some((Side::Black, Piece::King)),
        'q' => Some((Side::Black, Piece::Queen)),
        'r' => Some((Side::Black, Piece::Rook)),
        'b' => Some((Side::Black, Piece::Bishop)),
        'n' => Some((Side::Black, Piece::Knight)),
        'p' => Some((Side::Black, Piece::Pawn)),
        _ => None,
    }
}

/// The file reached never decreases, and nothing stands at or past it.
proof fn lemma_rank_scan(r: Seq<char>, n: int)
    requires
        0 <= n <= r.len(),
    ensures
        forall|k: int| 0 <= k <= n ==> #[trigger] rank_file(r, k) <= rank_file(r, n),
        rank_file(r, n) >= 0,
        rank_file(r, n) <= 9 * n,
        forall|f: int| f >= rank_file(r, n) ==> #[trigger] rank_occupant(r, n, f) is None,
    decreases n,
{
    if n > 0 {
        lemma_rank_scan(r, n - 1);
        assert forall|f: int| f >= rank_file(r, n) implies #[trigger] rank_occupant(r, n, f) is None by {
            assert(rank_occupant(r, n - 1, f) is None);
        }
    }
}

/// Once a refused character is found, it stays the first one.
proof fn lemma_first_bad_stays(r: Seq<char>, n: int, m: int)
    requires
        0 <= n <= m,
        first_bad(r, n) is Some,
    ensures
        first_bad(r, m) == first_bad(r, n),
    decreases m - n,
{
    if m > n {
        lemma_first_bad_stays(r, n, m - 1);
    }
}

/// The loop state of a rank load after `i` characters.
pub open spec fn rank_loaded(pre: Board, post: Board, r: Seq<char>, rank: int, i: int) -> bool {
    &&& post.wf()
    &&& post.key_rest() == pre.key_rest()
    &&& forall|sq: int| 0 <= sq < 64 ==> #[trigger] post.view()[sq] == (if sq / 8 == rank {
        rank_occupant(r, i, sq % 8)
    } else {
        pre.view()[sq]
    })
}

/// Puts the pieces of the rank text `r` on rank `rank` (0-7) of a board whose
/// rank is empty; refuses the text as `rank_error` says.
pub fn load_rank(board: &mut Board, r: &Vec<char>, rank: usize) -> (res: Result<(), String>)
    requires
        old(board).wf(),
        rank < 8,
        r@.len() * 9 + 9 <= usize::MAX,
        forall|f: int| 0 <= f < 8 ==> #[trigger] old(board).view()[rank * 8 + f] is None,
    ensures
        res is Ok <==> rank_error(r@, rank as int) is None,
        res matches Err(e) ==> rank_error(r@, rank as int) == Some(e@),
        res is Ok ==> rank_loaded(*old(board), *final(board), r@, rank as int, r@.len() as int),
{
    let ghost pre = *board;
    let mut file: usize = 0;
    let mut i: usize = 0;
    proof {
        assert forall|sq: int| 0 <= sq < 64 implies #[trigger] board.view()[sq] == (if sq / 8 == rank as int {
            rank_occupant(r@, 0, sq % 8)
        } else {
            pre.view()[sq]
        }) by {
            if sq / 8 == rank as int {
                assert(pre.view()[rank * 8 + sq % 8] is None);
            }
        }
    }
    while i < r.len()
        invariant
            0 <= i <= r@.len(),
            rank < 8,
            r@.len() * 9 + 9 <= usize::MAX,
            pre.wf(),
            forall|f: int| 0 <= f < 8 ==> #[trigger] pre.view()[rank * 8 + f] is None,
            file as int == rank_file(r@, i as int),
            first_bad(r@, i as int) is None,
            rank_loaded(pre, *board, r@, rank as int, i as int),
        decreases r.len() - i,
    {
        proof {
            lemma_rank_scan(r@, i as int);
        }
        let c = r[i];
        if '0' <= c && c <= '9' {
            file = file + (c as u32 - 48) as usize;
        } else {
            if file >= 8 {
                proof {
                    assert(bad_at(r@, i as int));
                    assert(first_bad(r@, i as int + 1) == Some(i as int));
                    lemma_first_bad_stays(r@, i as int + 1, r@.len() as int);
                    reveal_strlit("");
                    assert(""@ =~= Seq::<char>::empty());
                }
                return Err(number_message("Invalid FEN: too many squares in rank ", (rank + 1) as u64, ""));
            }
            match piece_from_char(c) {
                None => {
                    proof {
                        assert(bad_at(r@, i as int));
                        assert(first_bad(r@, i as int + 1) == Some(i as int));
                        lemma_first_bad_stays(r@, i as int + 1, r@.len() as int);
                    }
                    let one = vec![c];
                    proof {
                        assert(one@ =~= seq![r@[i as int]]);
                    }
                    return Err(chars_message("Invalid piece character: ", &one));
                },
                Some((side, piece)) => {
                    let ghost b0 = *board;
                    let sq = rank * 8 + file;
                    proof {
                        assert(b0.view()[sq as int] is None) by {
                            assert((sq as int) / 8 == rank as int);
                            assert((sq as int) % 8 == file as int);
                        }
                    }
                    board.add_piece(side, piece, square_of(sq));
                    file = file + 1;
                    proof {
                        assert forall|t: int| 0 <= t < 64 implies #[trigger] board.view()[t] == (if t / 8 == rank as int {
                            rank_occupant(r@, i as int + 1, t % 8)
                        } else {
                            pre.view()[t]
                        }) by {
                            if t == sq as int {
                                assert(t / 8 == rank as int && t % 8 == file as int - 1);
                            } else if t / 8 == rank as int {
                                assert(t % 8 != file as int - 1);
                            }
                        }
                    }
                },
            }
        }
        i = i + 1;
        proof {
            assert(!bad_at(r@, i as int - 1));
        }
    }
    proof {
        lemma_rank_scan(r@, r@.len() as int);
    }
    if file != 8 {
        let mut v = number_message("Invalid FEN: rank ", (rank + 1) as u64, " has ");
        return Err(crate::fen::append_number(v, file as u64, " squares instead of 8"));
    }
    Ok(())
}

/// A string followed by the decimal digits of `n` and then `suffix`.
pub fn append_number(s: String, n: u64, suffix: &str) -> (r: String)
    ensures
        r@ == s@ + decimal(n as nat) + suffix@,
{
    let mut v = crate::text::chars_of(s.as_str());
    crate::text::push_decimal(&mut v, n);
    crate::text::push_str_chars(&mut v, suffix);
    crate::text::string_of(&v)
}


/// The space-separated fields of a FEN text.
pub open spec fn fen_parts(fen: Seq<char>) -> Seq<Seq<char>> {
    split_spec(fen, ' ')
}

/// The rank texts of the board field.
pub open spec fn fen_ranks(fen: Seq<char>) -> Seq<Seq<char>> {
    split_spec(fen_parts(fen)[0], '/')
}

/// Why the board field is refused, if it is.
pub open spec fn board_error(fen: Seq<char>) -> Option<Seq<char>> {
    if fen_ranks(fen).len() != 8 {
        Some("Invalid FEN board: must have 8 ranks"@)
    } else {
        ranks_error(fen_ranks(fen), 8)
    }
}

/// The side to move the text gives (`w` or `b`; anything else keeps `old`).
pub open spec fn fen_side(fen: Seq<char>, old: Side) -> Side {
    let parts = fen_parts(fen);
    if parts.len() > 1 && parts[1] == "w"@ {
        Side::White
    } else if parts.len() > 1 && parts[1] == "b"@ {
        Side::Black
    } else {
        old
    }
}

/// The side not to move after loading (unchanged when the side field is neither `w` nor `b`).
pub open spec fn fen_other_side(fen: Seq<char>, old: Side) -> Side {
    let parts = fen_parts(fen);
    if parts.len() > 1 && parts[1] == "w"@ {
        Side::Black
    } else if parts.len() > 1 && parts[1] == "b"@ {
        Side::White
    } else {
        old
    }
}

/// The castle rights a castling field gives on board `v`: each letter counts
/// only with its king on its first square.
pub open spec fn castle_from(field: Seq<char>, v: Seq<Occupant>) -> int {
    let wk = v[4] == Some((Side::White, Piece::King));
    let bk = v[60] == Some((Side::Black, Piece::King));
    (if field.contains('K') && wk { 1int } else { 0 }) + (if field.contains('Q') && wk { 2int } else { 0 })
        + (if field.contains('k') && bk { 4int } else { 0 }) + (if field.contains('q') && bk { 8int } else { 0 })
}

/// The castle rights after loading (without a castling field, `old` stays).
pub open spec fn fen_castle(fen: Seq<char>, old: u8) -> int {
    let parts = fen_parts(fen);
    if parts.len() > 2 {
        castle_from(parts[2], ranks_view(fen_ranks(fen)))
    } else {
        old as int
    }
}

/// The en passant field, when it is read: two ASCII characters.
pub open spec fn ep_field(fen: Seq<char>) -> Option<Seq<char>> {
    let parts = fen_parts(fen);
    if parts.len() > 3 && parts[3] != "-"@ && parts[3].len() == 2 && parts[3][0] <= '\x7f' && parts[3][1] <= '\x7f' {
        Some(parts[3])
    } else {
        None
    }
}

/// The en passant field is one character that takes two bytes (which the
/// loader cannot read).
pub open spec fn ep_field_unreadable(fen: Seq<char>) -> bool {
    let parts = fen_parts(fen);
    parts.len() > 3 && parts[3].len() == 1 && 0x80 <= (parts[3][0] as int) < 0x800
}

/// Why the en passant field is refused for side `side`, if it is.
pub open spec fn ep_error(fen: Seq<char>, side: Side) -> Option<Seq<char>> {
    match ep_field(fen) {
        Some(f) => if !('a' <= f[0] <= 'h') || !('1' <= f[1] <= '8') {
            Some("Invalid en passant square: "@ + f)
        } else if (side == Side::White && f[1] != '6') || (side == Side::Black && f[1] != '3') {
            Some("Invalid en passant square "@ + f + " for side to move"@)
        } else {
            None
        },
        None => None,
    }
}

/// The squares a pawn left and reached when the en passant field names a target.
pub open spec fn fen_ep(fen: Seq<char>, side: Side) -> Option<(int, int)> {
    match ep_field(fen) {
        Some(f) => {
            let file = f[0] as int - 97;
            if side == Side::White {
                Some((file + 48, file + 32))
            } else {
                Some((file + 8, file + 24))
            }
        },
        None => None,
    }
}

/// Why the halfmove field is refused, if it is.
pub open spec fn fifty_error(fen: Seq<char>) -> Option<Seq<char>> {
    let parts = fen_parts(fen);
    if parts.len() > 4 && parse_unsigned_spec(parts[4], 255) is None {
        Some("Invalid halfmove clock: "@ + parts[4])
    } else {
        None
    }
}

/// The halfmove clock after loading.
pub open spec fn fen_fifty(fen: Seq<char>) -> int {
    let parts = fen_parts(fen);
    if parts.len() > 4 {
        parse_unsigned_spec(parts[4], 255).unwrap()
    } else {
        0
    }
}

/// The fullmove number field, read.
pub open spec fn fullmove(fen: Seq<char>) -> Option<int> {
    parse_unsigned_spec(fen_parts(fen)[5], usize::MAX as int)
}

/// Why the fullmove field is refused, if it is.
pub open spec fn fullmove_error(fen: Seq<char>) -> Option<Seq<char>> {
    let parts = fen_parts(fen);
    if parts.len() > 5 {
        match fullmove(fen) {
            Some(n) => if n < 1 { Some("Fullmove number must be at least 1"@) } else { None },
            None => Some("Invalid fullmove number: "@ + parts[5]),
        }
    } else {
        None
    }
}

/// The plies from the start of the game after loading, for side to move `side`.
pub open spec fn fen_ply(fen: Seq<char>, side: Side) -> int {
    let black = if side == Side::Black { 1int } else { 0 };
    if fen_parts(fen).len() > 5 {
        (fullmove(fen).unwrap() - 1) * 2 + black
    } else {
        black
    }
}

/// Why a FEN text is refused when the side to move before loading is `old`.
pub open spec fn fen_error(fen: Seq<char>, old: Side) -> Option<Seq<char>> {
    let side = fen_side(fen, old);
    if board_error(fen) is Some {
        board_error(fen)
    } else if ep_error(fen, side) is Some {
        ep_error(fen, side)
    } else if fifty_error(fen) is Some {
        fifty_error(fen)
    } else {
        fullmove_error(fen)
    }
}

/// The inputs on which the loader stops the program: an en passant field of one
/// two-byte character, a fullmove number whose ply count overflows, or an en
/// passant target at a ply past the end of the game record.
pub open spec fn fen_unloadable(fen: Seq<char>, old: Side, records: int) -> bool {
    let side = fen_side(fen, old);
    board_error(fen) is None && (ep_field_unreadable(fen) || (ep_error(fen, side) is None && fifty_error(fen) is None
        && fullmove_error(fen) is None && (fen_ply(fen, side) > usize::MAX || (fen_ep(fen, side) is Some && fen_ply(
        fen,
        side,
    ) >= records))))
}

/// `g` is the game record entry that stands for the double pawn move an en
/// passant field names, with the counters and key at loading time.
pub open spec fn ep_recorded(g: Game, fen: Seq<char>, side: Side, fifty: u8, castle: u8, key: u64) -> bool {
    let (from, to) = fen_ep(fen, side).unwrap();
    &&& g.from as int == from
    &&& g.to as int == to
    &&& g.promote is None
    &&& g.capture == Piece::Empty
    &&& g.fifty == fifty
    &&& g.castle == castle
    &&& g.hash == key
    &&& g.en_passant_file == Some((to % 8) as u8)
    &&& !g.en_passant_adjacent_opponent_pawn
}

/// The key of a loaded position: the pieces, the castle rights, the side to
/// move and the en passant file, in the order the loader adds them.
pub open spec fn fen_key(v: Seq<Occupant>, castle: u8, side: Side, ep: Option<(int, int)>) -> u64 {
    let k1 = crate::board::board_pieces_hash(v) ^ castle_delta(0, castle);
    let k2 = if side == Side::Black { k1 ^ zobrist_key(780) } else { k1 };
    match ep {
        Some((_, to)) => k2 ^ en_passant_key(None) ^ en_passant_key(Some((to % 8) as u8)),
        None => k2,
    }
}

/// `b` is `a` after loading the FEN text `fen`.
pub open spec fn fen_loaded(a: Position, b: Position, fen: Seq<char>) -> bool {
    let side = fen_side(fen, a.side);
    let v = ranks_view(fen_ranks(fen));
    let castle = b.castle;
    let fifty = b.fifty;
    let ply = fen_ply(fen, side);
    &&& b == (Position {
        board: b.board,
        side,
        other_side: fen_other_side(fen, a.other_side),
        castle,
        fifty,
        ply_from_start_of_game: b.ply_from_start_of_game,
        game_list: b.game_list,
        ..a
    })
    &&& castle as int == fen_castle(fen, a.castle)
    &&& fifty as int == fen_fifty(fen)
    &&& b.ply_from_start_of_game as int == ply
    &&& b.board.wf()
    &&& b.board.view() == v
    &&& b.board.hash.current_key == fen_key(v, castle, side, fen_ep(fen, side))
    &&& match fen_ep(fen, side) {
        Some(_) => {
            &&& b.game_list@.len() == a.game_list@.len()
            &&& 0 <= ply < a.game_list@.len()
            &&& forall|i: int| 0 <= i < a.game_list@.len() && i != ply ==> #[trigger] b.game_list@[i] == a.game_list@[i]
            &&& b.game_list@[ply] matches Some(g) && ep_recorded(g, fen, side, fifty, castle, crate::board::board_pieces_hash(v))
        },
        None => b.game_list == a.game_list,
    }
}

/// The pieces of a split are no longer than the text.
proof fn lemma_split_lengths(s: Seq<char>, sep: char)
    ensures
        forall|i: int| 0 <= i < split_spec(s, sep).len() ==> #[trigger] split_spec(s, sep)[i].len() <= s.len(),
    decreases s.len(),
{
    if s.len() > 0 {
        lemma_split_lengths(s.drop_last(), sep);
        lemma_split_nonempty(s.drop_last(), sep);
    }
}

/// The text of `v` is `s`.
pub fn is_text(v: &Vec<char>, s: &str) -> (r: bool)
    ensures
        r == (v@ == s@),
{
    let w = crate::text::chars_of(s);
    if v.len() != w.len() {
        return false;
    }
    let mut i: usize = 0;
    while i < v.len()
        invariant
            i <= v@.len(),
            v@.len() == w@.len(),
            w@ == s@,
            forall|j: int| 0 <= j < i ==> v@[j] == w@[j],
        decreases v.len() - i,
    {
        if v[i] != w[i] {
            return false;
        }
        i = i + 1;
    }
    proof {
        assert(v@ =~= w@);
    }
    true
}

/// The text holds the character `c`.
pub fn holds_char(v: &Vec<char>, c: char) -> (r: bool)
    ensures
        r == v@.contains(c),
{
    let mut i: usize = 0;
    while i < v.len()
        invariant
            i <= v@.len(),
            forall|j: int| 0 <= j < i ==> v@[j] != c,
        decreases v.len() - i,
    {
        if v[i] == c {
            return true;
        }
        i = i + 1;
    }
    false
}


/// Once a rank text is refused, the error stays the first one.
proof fn lemma_ranks_error_stays(rs: Seq<Seq<char>>, n: int, m: int)
    requires
        0 <= n <= m,
        ranks_error(rs, n) is Some,
    ensures
        ranks_error(rs, m) == ranks_error(rs, n),
    decreases m - n,
{
    if m > n {
        lemma_ranks_error_stays(rs, n, m - 1);
    }
}

/// Loads the eight rank texts onto an empty board.
fn load_ranks(board: &mut Board, ranks: &Vec<Vec<char>>) -> (res: Result<(), String>)
    requires
        old(board).wf(),
        old(board).view() == crate::board::empty_view(),
        old(board).key_rest() == 0,
        ranks@.len() == 8,
        forall|k: int| 0 <= k < 8 ==> #[trigger] ranks@[k]@.len() * 9 + 9 <= usize::MAX,
    ensures
        res is Ok <==> ranks_error(ranks@.map_values(|v: Vec<char>| v@), 8) is None,
        res matches Err(e) ==> ranks_error(ranks@.map_values(|v: Vec<char>| v@), 8) == Some(e@),
        res is Ok ==> final(board).wf() && final(board).key_rest() == 0 && final(board).view() == ranks_view(
            ranks@.map_values(|v: Vec<char>| v@),
        ),
{
    let ghost rs = ranks@.map_values(|v: Vec<char>| v@);
    let mut k: usize = 0;
    while k < 8
        invariant
            k <= 8,
            ranks@.len() == 8,
            rs == ranks@.map_values(|v: Vec<char>| v@),
            forall|j: int| 0 <= j < 8 ==> #[trigger] ranks@[j]@.len() * 9 + 9 <= usize::MAX,
            board.wf(),
            board.key_rest() == 0,
            ranks_error(rs, k as int) is None,
            forall|sq: int| 0 <= sq < 64 ==> #[trigger] board.view()[sq] == (if 7 - sq / 8 < k {
                rank_occupant(rs[7 - sq / 8], rs[7 - sq / 8].len() as int, sq % 8)
            } else {
                None
            }),
        decreases 8 - k,
    {
        let ghost b0 = *board;
        proof {
            assert forall|f: int| 0 <= f < 8 implies #[trigger] board.view()[(7 - k) * 8 + f] is None by {
                let sq = (7 - k) * 8 + f;
                assert(sq / 8 == 7 - k);
            }
            assert(rs[k as int] == ranks@[k as int]@);
        }
        let res = load_rank(board, &ranks[k], 7 - k);
        match res {
            Err(e) => {
                proof {
                    assert(ranks_error(rs, k as int + 1) == Some(e@));
                    lemma_ranks_error_stays(rs, k as int + 1, 8);
                }
                return Err(e);
            },
            Ok(()) => {},
        }
        proof {
            assert forall|sq: int| 0 <= sq < 64 implies #[trigger] board.view()[sq] == (if 7 - sq / 8 < k + 1 {
                rank_occupant(rs[7 - sq / 8], rs[7 - sq / 8].len() as int, sq % 8)
            } else {
                None
            }) by {
                assert(rank_loaded(b0, *board, ranks@[k as int]@, 7 - k, ranks@[k as int]@.len() as int));
                if sq / 8 == 7 - k {
                    assert(7 - sq / 8 == k);
                }
            }
        }
        k = k + 1;
    }
    proof {
        assert(board.view() =~= ranks_view(rs));
    }
    Ok(())
}


impl Position {
    /// Loads a position from a FEN text: the board (eighth rank first), the side
    /// to move, the castle rights (each counted only with its king on its first
    /// square), the en passant target (recorded as the double pawn move that
    /// made it), the halfmove clock and the fullmove number. Fields that are
    /// missing keep their defaults; the first invalid field refuses the text.
    #[verifier::rlimit(80)]
    #[verifier::spinoff_prover]
    pub fn load_fen(&mut self, fen: &str) -> (r: Result<(), String>)
        requires
            fen@.len() * 9 + 9 <= usize::MAX,
            !fen_unloadable(fen@, old(self).side, old(self).game_list@.len() as int),
        ensures
            r is Ok <==> fen_error(fen@, old(self).side) is None,
            r matches Err(e) ==> fen_error(fen@, old(self).side) == Some(e@),
            r is Ok ==> fen_loaded(*old(self), *final(self), fen@),
    {
        let ghost a = *self;
        let chars = crate::text::chars_of(fen);
        self.board = Board::empty();
        let parts = split_chars(&chars, ' ');
        proof {
            lemma_split_nonempty(fen@, ' ');
            lemma_split_lengths(fen@, ' ');
        }
        let ranks = split_chars(&parts[0], '/');
        proof {
            assert(parts@.len() == fen_parts(fen@).len());
            assert forall|i: int| 0 <= i < parts@.len() implies #[trigger] parts@[i]@ == fen_parts(fen@)[i] by {}
            assert(parts@[0]@ == fen_parts(fen@)[0]);
            lemma_split_lengths(fen_parts(fen@)[0], '/');
            assert(ranks@.map_values(|v: Vec<char>| v@) =~= fen_ranks(fen@));
        }
        if ranks.len() != 8 {
            return Err(String::from_str("Invalid FEN board: must have 8 ranks"));
        }
        proof {
            assert forall|k: int| 0 <= k < 8 implies #[trigger] ranks@[k]@.len() * 9 + 9 <= usize::MAX by {
                assert(ranks@[k]@ == fen_ranks(fen@)[k]);
            }
        }
        match load_ranks(&mut self.board, &ranks) {
            Err(e) => {
                return Err(e);
            },
            Ok(()) => {},
        }
        let ghost v = self.board.view();
        let ghost b1 = self.board;
        proof {
            assert(board_error(fen@) is None);
        }
        // Side to move.
        if parts.len() > 1 {
            if is_text(&parts[1], "w") {
                self.side = Side::White;
                self.other_side = Side::Black;
            } else if is_text(&parts[1], "b") {
                self.side = Side::Black;
                self.other_side = Side::White;
            }
        }
        let ghost side = fen_side(fen@, a.side);
        proof {
            assert(self.side == side);
        }
        // Castle rights.
        if parts.len() > 2 {
            let wk = self.board.bit_pieces[0][5].is_bit_set(crate::types::Square::E1);
            let bk = self.board.bit_pieces[1][5].is_bit_set(crate::types::Square::E8);
            proof {
                crate::board::lemma_wf_bits(self.board, 4);
                crate::board::lemma_wf_bits(self.board, 60);
                assert(wk == (v[4] == Some((Side::White, Piece::King))));
                assert(bk == (v[60] == Some((Side::Black, Piece::King))));
            }
            let c: u8 = (if holds_char(&parts[2], 'K') && wk { 1u8 } else { 0u8 })
                + (if holds_char(&parts[2], 'Q') && wk { 2u8 } else { 0u8 })
                + (if holds_char(&parts[2], 'k') && bk { 4u8 } else { 0u8 })
                + (if holds_char(&parts[2], 'q') && bk { 8u8 } else { 0u8 });
            self.castle = c;
        }
        proof {
            assert(self.castle as int == fen_castle(fen@, a.castle));
        }
        // En passant target.
        let mut ep: Option<(usize, usize)> = None;
        if parts.len() > 3 && !is_text(&parts[3], "-") && parts[3].len() == 2 && parts[3][0] <= '\x7f'
            && parts[3][1] <= '\x7f' {
            let file = parts[3][0];
            let rank = parts[3][1];
            proof {
                assert(parts@[3]@ == fen_parts(fen@)[3]);
                assert(parts@[3]@ != "-"@);
                assert(parts@[3]@.len() == 2);
                assert(fen_parts(fen@).len() > 3);
                assert(ep_field(fen@) == Some(parts@[3]@));
            }
            if !('a' <= file && file <= 'h') || !('1' <= rank && rank <= '8') {
                return Err(chars_message("Invalid en passant square: ", &parts[3]));
            }
            if (self.side == Side::White && rank != '6') || (self.side == Side::Black && rank != '3') {
                let m = chars_message("Invalid en passant square ", &parts[3]);
                return Err(crate::fen::append_text(m, " for side to move"));
            }
            let f = (file as u32 - 97) as usize;
            if self.side == Side::White {
                ep = Some((f + 48, f + 32));
            } else {
                ep = Some((f + 8, f + 24));
            }
        } else {
            proof {
                if parts@.len() > 3 && parts@[3]@.len() == 2 {
                    assert(parts@[3]@ == fen_parts(fen@)[3]);
                }
            }
        }
        proof {
            assert(ep_error(fen@, side) is None);
            assert(ep matches Some((f, t)) ==> fen_ep(fen@, side) == Some((f as int, t as int)));
            assert(ep is None ==> fen_ep(fen@, side) is None);
        }
        // Halfmove clock.
        if parts.len() > 4 {
            match parse_unsigned(&parts[4], 255) {
                Some(h) => {
                    self.fifty = h as u8;
                },
                None => {
                    return Err(chars_message("Invalid halfmove clock: ", &parts[4]));
                },
            }
        } else {
            self.fifty = 0;
        }
        proof {
            assert(self.fifty as int == fen_fifty(fen@));
        }
        // Fullmove number.
        let black: usize = if self.side == Side::Black { 1 } else { 0 };
        if parts.len() > 5 {
            match parse_unsigned(&parts[5], usize::MAX as u64) {
                Some(n) => {
                    if n < 1 {
                        return Err(String::from_str("Fullmove number must be at least 1"));
                    }
                    proof {
                        assert(parts@[5]@ == fen_parts(fen@)[5]);
                        assert(fullmove(fen@) == Some(n as int));
                    }
                    self.ply_from_start_of_game = (n as usize - 1) * 2 + black;
                },
                None => {
                    return Err(chars_message("Invalid fullmove number: ", &parts[5]));
                },
            }
        } else {
            self.ply_from_start_of_game = black;
        }
        proof {
            assert(self.ply_from_start_of_game as int == fen_ply(fen@, side));
            assert(fen_error(fen@, a.side) is None);
        }
        let ghost key0 = self.board.hash.current_key;
        if let Some((from, to)) = ep {
            let game = Game {
                from: square_of(from),
                to: square_of(to),
                promote: None,
                capture: Piece::Empty,
                fifty: self.fifty,
                castle: self.castle,
                hash: self.board.hash.current_key,
                en_passant_file: Some((to % 8) as u8),
                en_passant_adjacent_opponent_pawn: false,
            };
            let ply = self.ply_from_start_of_game;
            self.game_list.set(ply, Some(game));
        }
        let castle = self.castle;
        self.board.hash.update_castle_rights(0, castle);
        if self.side == Side::Black {
            self.board.hash.toggle_side_to_move();
        }
        if let Some((_, to)) = ep {
            self.board.hash.update_en_passant(None, Some((to % 8) as u8));
        }
        proof {
            let h = crate::board::board_pieces_hash(v);
            assert(key0 ^ h == 0);
            assert(key0 == h) by (bit_vector)
                requires
                    key0 ^ h == 0,
            ;
            assert(self.board.view() == v);
            assert(self.board.hash.current_key == fen_key(v, self.castle, side, fen_ep(fen@, side)));
            assert forall|i: int| 0 <= i < 64 implies #[trigger] self.board.square_wf(i) by {
                assert(b1.square_wf(i));
            }
            assert(self.board.wf());
            assert(*self == (Position {
                board: self.board,
                side,
                other_side: fen_other_side(fen@, a.other_side),
                castle: self.castle,
                fifty: self.fifty,
                ply_from_start_of_game: self.ply_from_start_of_game,
                game_list: self.game_list,
                ..a
            }));
            if ep is Some {
                assert(self.game_list@[fen_ply(fen@, side)] matches Some(g) && ep_recorded(g, fen@, side, self.fifty, self.castle, crate::board::board_pieces_hash(v)));
            }
        }
        Ok(())
    }
}

/// A string followed by a literal.
pub fn append_text(s: String, suffix: &str) -> (r: String)
    ensures
        r@ == s@ + suffix@,
{
    let mut v = crate::text::chars_of(s.as_str());
    crate::text::push_str_chars(&mut v, suffix);
    crate::text::string_of(&v)
}


/// The FEN letter of a piece of a side.
pub open spec fn piece_letter(side: Side, piece: Piece) -> char {
    let c = match piece {
        Piece::King => 'K',
        Piece::Queen => 'Q',
        Piece::Rook => 'R',
        Piece::Bishop => 'B',
        Piece::Knight => 'N',
        _ => 'P',
    };
    if side == Side::White {
        c
    } else {
        ((c as int) + 32) as char
    }
}

/// The text of rank `rank` from file `f` on, after `empty` empty squares not yet written.
pub open spec fn rank_text_from(v: Seq<Occupant>, rank: int, f: int, empty: nat) -> Seq<char>
    decreases 8 - f,
{
    if f >= 8 {
        if empty > 0 { decimal(empty) } else { Seq::empty() }
    } else {
        match v[rank * 8 + f] {
            None => rank_text_from(v, rank, f + 1, empty + 1),
            Some((side, piece)) => (if empty > 0 { decimal(empty) } else { Seq::empty() }) + seq![piece_letter(side, piece)]
                + rank_text_from(v, rank, f + 1, 0),
        }
    }
}

/// The text of ranks `rank` down to the first, separated by `/`.
pub open spec fn ranks_text(v: Seq<Occupant>, rank: int) -> Seq<char>
    decreases rank,
{
    if rank <= 0 {
        rank_text_from(v, 0, 0, 0)
    } else {
        rank_text_from(v, rank, 0, 0) + seq!['/'] + ranks_text(v, rank - 1)
    }
}

/// The castling field of castle rights `c`.
pub open spec fn castle_text(c: u8) -> Seq<char> {
    let t = (if c & 1 != 0 { seq!['K'] } else { Seq::empty() }) + (if c & 2 != 0 { seq!['Q'] } else { Seq::empty() })
        + (if c & 4 != 0 { seq!['k'] } else { Seq::empty() }) + (if c & 8 != 0 { seq!['q'] } else { Seq::empty() });
    if t.len() == 0 { seq!['-'] } else { t }
}

/// The castling field written for castle rights `c` holds `K`, `Q`, `k` and `q`
/// exactly for white kingside (bit 1), white queenside (bit 2), black kingside
/// (bit 4) and black queenside (bit 8).
pub proof fn lemma_castle_text_letters(c: u8)
    ensures
        castle_text(c).contains('K') <==> c & 1 != 0,
        castle_text(c).contains('Q') <==> c & 2 != 0,
        castle_text(c).contains('k') <==> c & 4 != 0,
        castle_text(c).contains('q') <==> c & 8 != 0,
{
    let a: Seq<char> = if c & 1 != 0 { seq!['K'] } else { Seq::empty() };
    let b: Seq<char> = if c & 2 != 0 { seq!['Q'] } else { Seq::empty() };
    let d: Seq<char> = if c & 4 != 0 { seq!['k'] } else { Seq::empty() };
    let e: Seq<char> = if c & 8 != 0 { seq!['q'] } else { Seq::empty() };
    let t = a + b + d + e;
    assert forall|x: char| #[trigger] t.contains(x) <==> (a.contains(x) || b.contains(x) || d.contains(x) || e.contains(x)) by {
        if t.contains(x) {
            let i = choose|i: int| 0 <= i < t.len() && t[i] == x;
            if i < a.len() {
                assert(a[i] == x);
            } else if i < a.len() + b.len() {
                assert(b[i - a.len()] == x);
            } else if i < a.len() + b.len() + d.len() {
                assert(d[i - a.len() - b.len()] == x);
            } else {
                assert(e[i - a.len() - b.len() - d.len()] == x);
            }
        }
        if a.contains(x) {
            assert(t[0] == x);
        }
        if b.contains(x) {
            assert(t[a.len() as int] == x);
        }
        if d.contains(x) {
            assert(t[(a.len() + b.len()) as int] == x);
        }
        if e.contains(x) {
            assert(t[(a.len() + b.len() + d.len()) as int] == x);
        }
    }
    if t.len() == 0 {
        assert(!seq!['-'].contains('K') && !seq!['-'].contains('Q') && !seq!['-'].contains('k') && !seq!['-'].contains('q')) by {
            assert(seq!['-'][0] == '-');
        }
    }
    if a.len() > 0 { assert(a[0] == 'K'); }
    if b.len() > 0 { assert(b[0] == 'Q'); }
    if d.len() > 0 { assert(d[0] == 'k'); }
    if e.len() > 0 { assert(e[0] == 'q'); }
}

/// Writing the castle rights of a position and reading the field back (with
/// each king on its first square whenever it holds a right) gives the same rights.
pub proof fn lemma_castle_text_roundtrip(c: u8, v: Seq<Occupant>)
    requires
        c < 16,
        c & 3 != 0 ==> v[4] == Some((Side::White, Piece::King)),
        c & 12 != 0 ==> v[60] == Some((Side::Black, Piece::King)),
    ensures
        castle_from(castle_text(c), v) == c as int,
{
    lemma_castle_text_letters(c);
    assert(c == (c & 1) + (c & 2) + (c & 4) + (c & 8)
        && ((c & 1) != 0 ==> (c & 1) == 1) && ((c & 2) != 0 ==> (c & 2) == 2)
        && ((c & 4) != 0 ==> (c & 4) == 4) && ((c & 8) != 0 ==> (c & 8) == 8)
        && (c & 3 != 0 <==> ((c & 1) != 0 || (c & 2) != 0))
        && (c & 12 != 0 <==> ((c & 4) != 0 || (c & 8) != 0))) by (bit_vector)
        requires c < 16;
}

/// The en passant field of a position: the square behind the pawn that has
/// just moved two squares (on the sixth rank with white to move, the third
/// with black), or `-`.
pub open spec fn ep_text(p: Position) -> Seq<char> {
    match p.spec_en_passant_file() {
        Some(f) => seq![((97 + f) as u8) as char, ((49 + if p.side == Side::White { 5int } else { 2int }) as u8) as char],
        None => seq!['-'],
    }
}

/// The FEN text of a position.
pub open spec fn fen_text(p: Position) -> Seq<char> {
    ranks_text(p.board.view(), 7) + seq![' ', if p.side == Side::White { 'w' } else { 'b' }, ' '] + castle_text(p.castle)
        + seq![' '] + ep_text(p) + seq![' '] + decimal(p.fifty as nat) + seq![' '] + decimal(
        (p.ply_from_start_of_game / 2 + 1) as nat,
    )
}

/// The FEN letter of a piece of a side.
fn letter_of(side: Side, piece: Piece) -> (r: char)
    ensures
        r == piece_letter(side, piece),
{
    let white = side == Side::White;
    match piece {
        Piece::King => if white { 'K' } else { 'k' },
        Piece::Queen => if white { 'Q' } else { 'q' },
        Piece::Rook => if white { 'R' } else { 'r' },
        Piece::Bishop => if white { 'B' } else { 'b' },
        Piece::Knight => if white { 'N' } else { 'n' },
        _ => if white { 'P' } else { 'p' },
    }
}

impl Position {
    /// Appends the text of rank `rank`.
    fn push_rank_text(&self, out: &mut Vec<char>, rank: usize)
        requires
            self.board.wf(),
            rank < 8,
        ensures
            final(out)@ == old(out)@ + rank_text_from(self.board.view(), rank as int, 0, 0),
    {
        let ghost v = self.board.view();
        let ghost start = old(out)@;
        let mut empty: u64 = 0;
        let mut f: usize = 0;
        proof {
            assert(out@ + rank_text_from(v, rank as int, 0, 0) == start + rank_text_from(v, rank as int, 0, 0));
        }
        while f < 8
            invariant
                self.board.wf(),
                v == self.board.view(),
                rank < 8,
                f <= 8,
                empty <= f,
                out@ + rank_text_from(v, rank as int, f as int, empty as nat) == start + rank_text_from(v, rank as int, 0, 0),
            decreases 8 - f,
        {
            let sq = rank * 8 + f;
            let piece = self.board.value[sq];
            proof {
                crate::make_move::lemma_value_is_piece(self.board);
                crate::board::lemma_wf_bits(self.board, sq as int);
                assert(self.board.square_wf(sq as int));
            }
            if piece == Piece::Empty {
                proof {
                    assert(v[sq as int] is None);
                }
                empty = empty + 1;
            } else {
                let white = self.board.bit_units[0].is_bit_set(square_of(sq));
                let side = if white { Side::White } else { Side::Black };
                proof {
                    assert(v[sq as int] == Some((side, piece)));
                }
                let ghost before = out@;
                if empty > 0 {
                    crate::text::push_decimal(out, empty);
                }
                out.push(letter_of(side, piece));
                proof {
                    let pre = if empty > 0 { decimal(empty as nat) } else { Seq::empty() };
                    assert(out@ == before + pre + seq![piece_letter(side, piece)]);
                    assert(rank_text_from(v, rank as int, f as int, empty as nat) == pre + seq![piece_letter(side, piece)]
                        + rank_text_from(v, rank as int, f as int + 1, 0));
                    assert(out@ + rank_text_from(v, rank as int, f as int + 1, 0) =~= before + rank_text_from(v, rank as int, f as int, empty as nat));
                }
                empty = 0;
            }
            f = f + 1;
        }
        let ghost before = out@;
        if empty > 0 {
            crate::text::push_decimal(out, empty);
        }
        proof {
            assert(out@ =~= before + rank_text_from(v, rank as int, 8, empty as nat));
        }
    }

    /// Appends the board text, from the eighth rank down.
    fn push_board_text(&self, out: &mut Vec<char>)
        requires
            self.board.wf(),
            old(out)@.len() == 0,
        ensures
            final(out)@ == ranks_text(self.board.view(), 7),
    {
        let ghost v = self.board.view();
        let mut rank: usize = 8;
        while rank > 0
            invariant
                self.board.wf(),
                v == self.board.view(),
                rank <= 8,
                rank == 8 ==> out@ == Seq::<char>::empty(),
                0 < rank < 8 ==> out@ + seq!['/'] + ranks_text(v, rank as int - 1) == ranks_text(v, 7),
                rank == 0 ==> out@ == ranks_text(v, 7),
            decreases rank,
        {
            let ghost before = out@;
            if rank < 8 {
                out.push('/');
            }
            self.push_rank_text(out, rank - 1);
            proof {
                let r = rank as int - 1;
                if r > 0 {
                    assert(ranks_text(v, r) == rank_text_from(v, r, 0, 0) + seq!['/'] + ranks_text(v, r - 1));
                } else {
                    assert(ranks_text(v, r) == rank_text_from(v, 0, 0, 0));
                }
                if rank == 8 {
                    assert(out@ =~= rank_text_from(v, 7, 0, 0));
                    assert(out@ + seq!['/'] + ranks_text(v, 6) =~= ranks_text(v, 7));
                } else {
                    assert(out@ =~= before + seq!['/'] + rank_text_from(v, r, 0, 0));
                    if r > 0 {
                        assert(out@ + seq!['/'] + ranks_text(v, r - 1) =~= before + seq!['/'] + ranks_text(v, r));
                    } else {
                        assert(out@ =~= before + seq!['/'] + ranks_text(v, 0));
                    }
                }
            }
            rank = rank - 1;
        }
    }

    /// Appends the castling field.
    fn push_castle_text(&self, out: &mut Vec<char>)
        ensures
            final(out)@ == old(out)@ + castle_text(self.castle),
    {
        let ghost c0 = out@;
        let c0len = out.len();
        let c = self.castle;
        if c & 1 != 0 {
            out.push('K');
        }
        if c & 2 != 0 {
            out.push('Q');
        }
        if c & 4 != 0 {
            out.push('k');
        }
        if c & 8 != 0 {
            out.push('q');
        }
        if out.len() == c0len {
            out.push('-');
        }
        proof {
            assert(out@ =~= c0 + castle_text(c));
        }
    }

    /// Appends the en passant field.
    fn push_ep_text(&self, out: &mut Vec<char>)
        ensures
            final(out)@ == old(out)@ + ep_text(*self),
    {
        let ghost e0 = out@;
        match self.get_en_passant_file() {
            Some(ep_file) => {
                let ep_rank: u8 = if self.side == Side::White { 5 } else { 2 };
                out.push((97u8 + ep_file) as char);
                out.push((49u8 + ep_rank) as char);
            },
            None => {
                out.push('-');
            },
        }
        proof {
            assert(out@ =~= e0 + ep_text(*self));
        }
    }

    /// The FEN text of the position: the board from the eighth rank down, the
    /// side to move, the castle rights, the en passant target square, the
    /// halfmove clock and the fullmove number.
    pub fn to_fen(&self) -> (r: String)
        requires
            self.board.wf(),
        ensures
            r@ == fen_text(*self),
    {
        let mut out: Vec<char> = Vec::new();
        self.push_board_text(&mut out);
        out.push(' ');
        out.push(if self.side == Side::White { 'w' } else { 'b' });
        out.push(' ');
        self.push_castle_text(&mut out);
        out.push(' ');
        self.push_ep_text(&mut out);
        out.push(' ');
        crate::text::push_decimal(&mut out, self.fifty as u64);
        out.push(' ');
        let fullmove = (self.ply_from_start_of_game / 2 + 1) as u64;
        crate::text::push_decimal(&mut out, fullmove);
        proof {
            assert(out@ =~= fen_text(*self));
        }
        crate::text::string_of(&out)
    }
}


/// `p` is a new position loaded from the FEN text `fen`, with an empty search state.
pub open spec fn fen_position(p: Position, fen: Seq<char>) -> bool {
    &&& p.board.wf()
    &&& p.board.view() == ranks_view(fen_ranks(fen))
    &&& p.side == fen_side(fen, Side::White)
    &&& p.other_side == fen_other_side(fen, Side::Black)
    &&& p.castle as int == fen_castle(fen, 15)
    &&& p.fifty as int == fen_fifty(fen)
    &&& p.ply_from_start_of_game as int == fen_ply(fen, p.side)
    &&& p.ply == 0
    &&& p.first_move@.len() == crate::constants::MAX_PLY
    &&& p.first_move@[0] == 0
    &&& p.move_list@.len() == crate::constants::MOVE_STACK
    &&& p.game_list@.len() == crate::constants::GAME_STACK
    &&& forall|i: int| 0 <= i < crate::constants::GAME_STACK && i != p.ply_from_start_of_game ==> #[trigger] p.game_list@[i] is None
}

impl Position {
    /// A new position loaded from a FEN text (see `load_fen`), with an empty
    /// search state.
    pub fn from_fen(fen: &str) -> (r: Result<Position, String>)
        requires
            fen@.len() * 9 + 9 <= usize::MAX,
            !fen_unloadable(fen@, Side::White, crate::constants::GAME_STACK as int),
        ensures
            r is Ok <==> fen_error(fen@, Side::White) is None,
            r matches Err(e) ==> fen_error(fen@, Side::White) == Some(e@),
            r matches Ok(p) ==> fen_position(p, fen@),
    {
        let mut p = Position::new();
        let ghost a = p;
        match p.load_fen(fen) {
            Ok(()) => {
                proof {
                    assert(fen_loaded(a, p, fen@));
                    assert(p.first_move == a.first_move);
                    assert(p.move_list == a.move_list);
                    assert(p.ply == a.ply);
                    assert(p.game_list@.len() == crate::constants::GAME_STACK);
                    assert forall|i: int| 0 <= i < crate::constants::GAME_STACK && i != p.ply_from_start_of_game implies #[trigger] p.game_list@[i] is None by {
                        assert(a.game_list@[i] is None);
                    }
                }
                Ok(p)
            },
            Err(e) => Err(e),
        }
    }
}

} // verus!
