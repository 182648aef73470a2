use vstd::prelude::*;

use crate::board::{is_file_char, is_rank_char, promotion_of, uci_parse, uci_square, uci_text};
use crate::engine::Engine;
use crate::fen::{fen_error, fen_unloadable, parse_unsigned, parse_unsigned_spec};
use crate::legal::{in_list, legal_text};
use crate::make_move::made_move;
use crate::position::Position;
use crate::rules::{has_king, move_ok};
use crate::square::square_at;
use crate::tables::square_of;
use crate::text::{chars_message, chars_of, is_ws, split_words, string_of, words};
use crate::types::{Board, MoveData, Piece, Side};

verus! {

/// The number of bytes UTF-8 takes for a character.
pub open spec fn utf8_len(c: char) -> int {
    let x = c as u32;
    if x < 0x80 {
        1
    } else if x < 0x800 {
        2
    } else if x < 0x10000 {
        3
    } else {
        4
    }
}

/// The number of bytes UTF-8 takes for a text.
pub open spec fn byte_len(s: Seq<char>) -> int
    decreases s.len(),
{
    if s.len() == 0 {
        0
    } else {
        byte_len(s.drop_last()) + utf8_len(s.last())
    }
}

/// Why a move text is refused, if it is.
pub open spec fn move_text_error(w: Seq<char>) -> Option<Seq<char>> {
    if byte_len(w) < 4 || byte_len(w) > 5 {
        Some("Invalid move string length: "@ + w)
    } else if !(w.len() >= 4 && is_file_char(w[0]) && is_rank_char(w[1]) && is_file_char(w[2]) && is_rank_char(w[3])) {
        Some("Invalid move format: "@ + w)
    } else if w.len() == 5 && promotion_of(w[4]) is None {
        Some("Invalid promotion piece: "@ + seq![w[4]])
    } else {
        None
    }
}

/// The byte length of a text.
pub fn utf8_length(w: &Vec<char>) -> (r: usize)
    requires
        w@.len() <= usize::MAX / 4,
    ensures
        r as int == byte_len(w@),
{
    let mut n: usize = 0;
    let mut i: usize = 0;
    proof {
        assert(w@.take(0) =~= Seq::<char>::empty());
    }
    while i < w.len()
        invariant
            i <= w@.len(),
            w@.len() <= usize::MAX / 4,
            n as int == byte_len(w@.take(i as int)),
            n <= 4 * i,
        decreases w.len() - i,
    {
        let c = w[i];
        let x = c as u32;
        let k: usize = if x < 0x80 {
            1
        } else if x < 0x800 {
            2
        } else if x < 0x10000 {
            3
        } else {
            4
        };
        proof {
            assert(w@.take(i as int + 1).drop_last() =~= w@.take(i as int));
            assert(w@.take(i as int + 1).last() == w@[i as int]);
            assert(c == w@[i as int]);
            assert(k as int == utf8_len(w@[i as int]));
            assert(byte_len(w@.take(i as int + 1)) == byte_len(w@.take(i as int)) + utf8_len(w@[i as int]));
        }
        n = n + k;
        i = i + 1;
    }
    proof {
        assert(w@.take(w@.len() as int) =~= w@);
    }
    n
}

/// Reads a move text (such as `e2e4` or `e7e8q`) as `Board::move_from_uci_string` does.
pub fn move_from_chars(w: &Vec<char>) -> (r: Result<MoveData, String>)
    requires
        w@.len() <= usize::MAX / 4,
    ensures
        r matches Err(e) ==> move_text_error(w@) == Some(e@),
        r is Ok <==> move_text_error(w@) is None,
        r matches Ok(m) ==> uci_parse(w@) == Some((m.from as int, m.to as int, m.promote)),
{
    let n = utf8_length(w);
    if n < 4 || n > 5 {
        return Err(chars_message("Invalid move string length: ", w));
    }
    if w.len() < 4 || w[0] < 'a' || w[0] > 'h' || w[1] < '1' || w[1] > '8' || w[2] < 'a' || w[2] > 'h' || w[3] < '1' || w[3] > '8' {
        return Err(chars_message("Invalid move format: ", w));
    }
    proof {
        assert(w@.len() <= 5) by {
            lemma_byte_len_at_least(w@);
        }
    }
    let from = square_of((w[1] as u32 - 49) as usize * 8 + (w[0] as u32 - 97) as usize);
    let to = square_of((w[3] as u32 - 49) as usize * 8 + (w[2] as u32 - 97) as usize);
    let promote = if w.len() == 5 {
        let c = w[4];
        if c == 'q' {
            Some(Piece::Queen)
        } else if c == 'r' {
            Some(Piece::Rook)
        } else if c == 'b' {
            Some(Piece::Bishop)
        } else if c == 'n' {
            Some(Piece::Knight)
        } else {
            let one = vec![c];
            proof {
                assert(one@ =~= seq![w@[4]]);
            }
            return Err(chars_message("Invalid promotion piece: ", &one));
        }
    } else {
        None
    };
    Ok(MoveData { from, to, promote })
}

/// A text takes at least a byte per character.
proof fn lemma_byte_len_at_least(s: Seq<char>)
    ensures
        byte_len(s) >= s.len(),
    decreases s.len(),
{
    if s.len() > 0 {
        lemma_byte_len_at_least(s.drop_last());
    }
}

/// `b` is `m` after playing the move named by the text `w`: the text names a
/// legal move of `m`, the move is made in `m` (once its legal moves have been
/// listed, which changes only the move list and a game record slot) and `b` is
/// the result with the search ply back at the root.
pub open spec fn played_step(m: Position, x: Position, y: Position, b: Position, w: Seq<char>) -> bool {
    &&& uci_parse(w) matches Some((f, t, p))
    &&& legal_text(m, uci_text(f, t, p, false))
    &&& crate::legal::restored(Position { move_list: x.move_list, first_move: x.first_move, ..m }, x)
    &&& made_move(x, y, square_at(f), square_at(t), p)
    &&& b == (Position { ply: 0, ..y })
}

/// `b` is `a` after playing the move texts `ws` in order.
#[verifier::opaque]
pub open spec fn played(a: Position, b: Position, ws: Seq<Seq<char>>) -> bool
    decreases ws.len(),
{
    if ws.len() == 0 {
        b == a
    } else {
        exists|m: Position, x: Position, y: Position|
            #[trigger] played_step(m, x, y, b, ws.last()) && played(a, m, ws.drop_last())
    }
}

/// A position where moves can be listed and played at the root.
pub open spec fn playable_root(p: Position) -> bool {
    &&& p.board.wf()
    &&& p.ply == 0
    &&& p.first_move@.len() > 1
    &&& p.first_move@[0] == 0
}

/// The position has room to play a move: a king for the side to move, a free
/// slot in the game record and a halfmove clock that can still count.
pub open spec fn step_room(m: Position) -> bool {
    &&& has_king(m.board.view(), m.side)
    &&& m.ply_from_start_of_game + 1 < m.game_list@.len()
    &&& m.fifty < 255
}

/// Why the move text `w` is refused in `m`, if it is: a text that does not
/// read as a move, no room to play, or a move that is not among the legal
/// moves of `m`.
pub open spec fn step_error(m: Position, w: Seq<char>) -> Option<Seq<char>> {
    if move_text_error(w) is Some {
        move_text_error(w)
    } else if !step_room(m) {
        Some("Failed to make move: "@ + w)
    } else {
        match uci_parse(w) {
            Some((f, t, p)) => if legal_text(m, uci_text(f, t, p, false)) {
                None
            } else {
                Some("Illegal move: "@ + w)
            },
            None => Some("Illegal move: "@ + w),
        }
    }
}

/// A promotion piece read from a text is written back the same way.
proof fn lemma_promotion_stable(p: Option<Piece>)
    requires
        p matches Some(q) ==> (q == Piece::Knight || q == Piece::Bishop || q == Piece::Rook || q == Piece::Queen),
    ensures
        crate::board::normalized_promotion(p) == p,
{
}

/// A legal text names a move that the board can carry out and that succeeds;
/// it is the UCI text of that move.
#[verifier::rlimit(60)]
pub proof fn lemma_legal_parse(m: Position, w: Seq<char>, f: int, t: int, p: Option<Piece>)
    requires
        legal_text(m, w),
        uci_parse(w) == Some((f, t, p)),
    ensures
        move_ok(m.board.view(), m.side, f, t, p),
        crate::rules::move_succeeds(m.board.view(), m.side, f, t, p),
        w == uci_text(f, t, p, false),
{
    let gm = choose|gm: crate::types::Move| #[trigger] crate::movegen::generated_move(m, m.side, false, gm) && move_ok(
        m.board.view(),
        m.side,
        gm.from as int,
        gm.to as int,
        gm.promote,
    ) && crate::rules::move_succeeds(m.board.view(), m.side, gm.from as int, gm.to as int, gm.promote) && w == uci_text(
        gm.from as int,
        gm.to as int,
        gm.promote,
        false,
    );
    assert(gm.from as int <= 63 && gm.to as int <= 63);
    crate::board::lemma_uci_roundtrip(gm.from as int, gm.to as int, gm.promote);
    lemma_promotion_stable(gm.promote);
}

/// Plays the move named by the text `w`: it must read as a move and be among
/// the legal moves of the position.
#[verifier::rlimit(80)]
#[verifier::spinoff_prover]
pub fn play_move_text(pos: &mut Position, w: &Vec<char>) -> (r: Result<(), String>)
    requires
        playable_root(*old(pos)),
        w@.len() <= usize::MAX / 4,
    ensures
        r is Ok <==> step_error(*old(pos), w@) is None,
        r matches Err(e) ==> step_error(*old(pos), w@) == Some(e@),
        r is Ok ==> playable_root(*final(pos)) && exists|x: Position, y: Position| #[trigger] played_step(*old(pos), x, y, *final(pos), w@),
        r is Err ==> final(pos).board.view() == old(pos).board.view() && final(pos).side == old(pos).side,
{
    let data = match move_from_chars(w) {
        Ok(d) => d,
        Err(e) => {
            return Err(e);
        },
    };
    let from = data.from;
    let to = data.to;
    let promote = data.promote;
    let ghost m = *pos;
    let side = pos.side;
    if !pos.king_present(side) || pos.ply_from_start_of_game >= pos.game_list.len()
        || pos.game_list.len() - pos.ply_from_start_of_game < 2 || pos.fifty >= 255 {
        return Err(chars_message("Failed to make move: ", w));
    }
    let legal = pos.get_legal_moves();
    let ghost x = *pos;
    let text = Board::move_to_uci_string(from, to, promote, false);
    proof {
        assert(uci_parse(w@) == Some((from as int, to as int, promote)));
        assert(from as int <= 63 && to as int <= 63);
        crate::board::lemma_uci_roundtrip(from as int, to as int, promote);
        lemma_promotion_stable(promote);
    }
    if !contains_text(&legal, &text) {
        return Err(chars_message("Illegal move: ", w));
    }
    proof {
        lemma_legal_parse(m, text@, from as int, to as int, promote);
    }
    if !pos.move_playable(from, to, promote) {
        return Err(chars_message("Failed to make move: ", w));
    }
    if !pos.make_move_with_promotion(from, to, promote) {
        return Err(chars_message("Failed to make move: ", w));
    }
    let ghost y = *pos;
    pos.ply = 0;
    proof {
        crate::square::lemma_square_at(from as int);
        crate::square::lemma_square_at(to as int);
        assert(played_step(m, x, y, *pos, w@));
    }
    Ok(())
}

/// The texts of a sequence of character vectors.
pub open spec fn vec_texts(ws: Seq<Vec<char>>) -> Seq<Seq<char>> {
    ws.map_values(|w: Vec<char>| w@)
}

/// Playing one more move text extends what was played.
pub proof fn lemma_played_push(a: Position, m: Position, x: Position, y: Position, b: Position, ws: Seq<Seq<char>>, w: Seq<char>)
    requires
        played(a, m, ws),
        played_step(m, x, y, b, w),
    ensures
        played(a, b, ws.push(w)),
{
    reveal(played);
    assert(ws.push(w).drop_last() =~= ws);
    assert(ws.push(w).last() == w);
}

/// Nothing played leaves the position as it is.
pub proof fn lemma_played_none(a: Position)
    ensures
        played(a, a, Seq::empty()),
{
    reveal(played);
}

/// Plays the move texts `ws[start..]` in order: each must read as a move and be
/// among the legal moves of the position it is played in.
pub fn play_moves(pos: &mut Position, ws: &Vec<Vec<char>>, start: usize) -> (r: Result<(), String>)
    requires
        playable_root(*old(pos)),
        start <= ws@.len(),
        forall|i: int| start <= i < ws@.len() ==> #[trigger] ws@[i]@.len() <= usize::MAX / 4,
    ensures
        r is Ok ==> played(*old(pos), *final(pos), vec_texts(ws@).subrange(start as int, ws@.len() as int)),
        r matches Err(e) ==> exists|i: int, m: Position|
            start <= i < ws@.len() && #[trigger] played(*old(pos), m, vec_texts(ws@).subrange(start as int, i))
                && step_error(m, ws@[i]@) == Some(e@) && final(pos).board.view() == m.board.view() && final(pos).side == m.side,
{
    let ghost a = *pos;
    let ghost texts = vec_texts(ws@);
    let mut i = start;
    proof {
        assert(texts.subrange(start as int, start as int) =~= Seq::<Seq<char>>::empty());
        lemma_played_none(a);
    }
    while i < ws.len()
        invariant
            start <= i <= ws@.len(),
            texts == vec_texts(ws@),
            forall|j: int| start <= j < ws@.len() ==> #[trigger] ws@[j]@.len() <= usize::MAX / 4,
            playable_root(*pos),
            *old(pos) == a,
            played(a, *pos, texts.subrange(start as int, i as int)),
        decreases ws.len() - i,
    {
        let ghost m = *pos;
        let r = play_move_text(pos, &ws[i]);
        if let Err(e) = r {
            proof {
                assert(played(a, m, texts.subrange(start as int, i as int)));
                assert(step_error(m, ws@[i as int]@) == Some(e@));
            }
            return Err(e);
        }
        proof {
            let (x, y) = choose|x: Position, y: Position| #[trigger] played_step(m, x, y, *pos, ws@[i as int]@);
            lemma_played_push(a, m, x, y, *pos, texts.subrange(start as int, i as int), ws@[i as int]@);
            assert(texts.subrange(start as int, i as int).push(ws@[i as int]@) =~= texts.subrange(start as int, i as int + 1));
        }
        i = i + 1;
    }
    Ok(())
}

/// One of the strings of `list` holds the text of `t`.
pub fn contains_text(list: &Vec<String>, t: &String) -> (r: bool)
    ensures
        r == in_list(list@, t@),
{
    let target = chars_of(t.as_str());
    let mut k: usize = 0;
    while k < list.len()
        invariant
            k <= list@.len(),
            target@ == t@,
            forall|j: int| 0 <= j < k ==> list@[j]@ != t@,
        decreases list.len() - k,
    {
        let c = chars_of(list[k].as_str());
        if crate::fen::is_text(&c, t.as_str()) {
            return true;
        }
        k = k + 1;
    }
    false
}


/// How many FEN fields a position command holds from word `i` on: up to six
/// words, stopping at `moves`.
pub open spec fn fen_word_count(ws: Seq<Seq<char>>, i: int, k: int) -> int
    decreases 6 - k,
{
    if k >= 6 || i + k >= ws.len() || ws[i + k] == "moves"@ {
        k
    } else {
        fen_word_count(ws, i, k + 1)
    }
}

/// The words `ws[i..i + n]` joined by single spaces.
pub open spec fn join_words(ws: Seq<Seq<char>>, i: int, n: int) -> Seq<char>
    decreases n,
{
    if n <= 0 {
        Seq::empty()
    } else if n == 1 {
        ws[i]
    } else {
        join_words(ws, i, n - 1) + seq![' '] + ws[i + n - 1]
    }
}

/// The FEN text of a `position fen ...` command.
pub open spec fn command_fen(ws: Seq<Seq<char>>) -> Seq<char> {
    join_words(ws, 2, fen_word_count(ws, 2, 0))
}

/// Where the words after the position start in a position command.
pub open spec fn after_setup(ws: Seq<Seq<char>>) -> int {
    if ws[1] == "startpos"@ {
        2
    } else {
        2 + fen_word_count(ws, 2, 0)
    }
}

/// The move words of a position command.
pub open spec fn command_moves(ws: Seq<Seq<char>>) -> Seq<Seq<char>> {
    let i = after_setup(ws);
    if i < ws.len() && ws[i] == "moves"@ {
        ws.subrange(i + 1, ws.len() as int)
    } else {
        Seq::empty()
    }
}

/// `p` is the position a position command sets up before its moves: the
/// initial position for `startpos`, the loaded FEN text for `fen`.
pub open spec fn command_setup(ws: Seq<Seq<char>>, p: Position) -> bool {
    if ws[1] == "startpos"@ {
        crate::engine::fresh_game_position(p)
    } else {
        crate::fen::fen_position(p, command_fen(ws))
    }
}

/// A position command that the parser can carry out without stopping the
/// program: its FEN text, if it has one, loads, and its move words can be read.
pub open spec fn command_ok(ws: Seq<Seq<char>>) -> bool {
    &&& forall|i: int| 0 <= i < ws.len() ==> (#[trigger] ws[i]).len() <= usize::MAX / 16
    &&& (ws.len() >= 3 && ws[1] == "fen"@ ==> {
        &&& command_fen(ws).len() * 9 + 9 <= usize::MAX
        &&& fen_error(command_fen(ws), Side::White) is None
        &&& !fen_unloadable(command_fen(ws), Side::White, crate::constants::GAME_STACK as int)
    })
}

/// Parses a UCI `position` command (`position startpos [moves ...]` or
/// `position fen <fields> [moves ...]`): sets up the position, then plays the
/// moves, each of which must be legal where it is played.
pub fn parse_position_command(engine: &mut Engine, command: &str) -> (r: Result<(), String>)
    requires
        command_ok(words(command@)),
    ensures
        ({
            let ws = words(command@);
            &&& ws.len() < 2 ==> (r matches Err(e) && e@ == "Invalid position command"@)
            &&& ws.len() >= 2 && ws[1] != "startpos"@ && ws[1] != "fen"@ ==> (r matches Err(e) && e@ == "Unknown position type: "@ + ws[1])
            &&& ws.len() == 2 && ws[1] == "fen"@ ==> (r matches Err(e) && e@ == "Missing FEN string"@)
            &&& r is Ok ==> exists|p: Position| #[trigger] command_setup(ws, p) && played(p, final(engine).position, command_moves(ws))
            &&& match r {
                Err(e) => ws.len() >= 2 && (ws[1] == "startpos"@ || (ws[1] == "fen"@ && ws.len() > 2)) ==> exists|
                    p: Position,
                    i: int,
                    m: Position,
                |
                    command_setup(ws, p) && 0 <= i < command_moves(ws).len() && #[trigger] played(p, m, command_moves(ws).take(i))
                        && step_error(m, command_moves(ws)[i]) == Some(e@) && final(engine).position.board.view() == m.board.view()
                        && final(engine).position.side == m.side,
                Ok(_) => true,
            }
        }),
        final(engine).search_settings == old(engine).search_settings,
        final(engine).difficulty == old(engine).difficulty,
        final(engine).computer_side == old(engine).computer_side,
{
    let chars = chars_of(command);
    let parts = split_words(&chars);
    let ghost ws = words(command@);
    proof {
        assert(parts@.map_values(|w: Vec<char>| w@) =~= ws);
        reveal_strlit("startpos");
        reveal_strlit("fen");
        assert("startpos"@ != "fen"@) by {
            assert("startpos"@.len() != "fen"@.len());
        }
    }
    if parts.len() < 2 {
        return Err(String::from_str("Invalid position command"));
    }
    let mut index: usize;
    if crate::fen::is_text(&parts[1], "startpos") {
        engine.position = Position::new();
        index = 2;
    } else if crate::fen::is_text(&parts[1], "fen") {
        index = 2;
        if index >= parts.len() {
            return Err(String::from_str("Missing FEN string"));
        }
        let mut fen: Vec<char> = Vec::new();
        let mut k: usize = 0;
        let mut stopped = false;
        while k < 6
            invariant
                ws == words(command@),
                parts@.map_values(|w: Vec<char>| w@) == ws,
                index == 2 + k || stopped,
                k <= 6,
                ws.len() >= 3,
                stopped ==> index as int == 2 + fen_word_count(ws, 2, 0),
                !stopped ==> fen_word_count(ws, 2, 0) == fen_word_count(ws, 2, k as int),
                !stopped ==> fen@ == join_words(ws, 2, k as int),
                stopped ==> fen@ == command_fen(ws),
            decreases 6 - k,
        {
            if !stopped {
                if index < parts.len() && !crate::fen::is_text(&parts[index], "moves") {
                    if k > 0 {
                        fen.push(' ');
                    }
                    let ghost before = fen@;
                    let w = &parts[index];
                    let mut j: usize = 0;
                    while j < w.len()
                        invariant
                            j <= w@.len(),
                            fen@ == (if k > 0 { before } else { before }) + w@.subrange(0, j as int),
                        decreases w.len() - j,
                    {
                        fen.push(w[j]);
                        j = j + 1;
                        proof {
                            assert(w@.subrange(0, j as int) =~= w@.subrange(0, j as int - 1).push(w@[j as int - 1]));
                        }
                    }
                    proof {
                        assert(w@.subrange(0, w@.len() as int) =~= w@);
                        assert(w@ == ws[index as int]);
                        if k == 0 {
                            assert(fen@ =~= join_words(ws, 2, 1));
                        } else {
                            assert(fen@ =~= join_words(ws, 2, k as int + 1));
                        }
                    }
                    index = index + 1;
                } else {
                    proof {
                        assert(fen_word_count(ws, 2, k as int) == k);
                    }
                    stopped = true;
                }
            }
            k = k + 1;
        }
        proof {
            if !stopped {
                assert(fen_word_count(ws, 2, 6) == 6);
            }
        }
        let text = string_of(&fen);
        match Position::from_fen(text.as_str()) {
            Ok(p) => {
                engine.position = p;
            },
            Err(_) => {
                return Err(String::from_str("Invalid FEN string"));
            },
        }
    } else {
        return Err(chars_message("Unknown position type: ", &parts[1]));
    }
    let ghost p0 = engine.position;
    proof {
        assert(index as int == after_setup(ws));
        assert(command_setup(ws, p0));
    }
    if index < parts.len() && crate::fen::is_text(&parts[index], "moves") {
        let r = play_moves(&mut engine.position, &parts, index + 1);
        proof {
            assert(ws.subrange(index as int + 1, ws.len() as int) =~= command_moves(ws));
            assert(parts@.map_values(|w: Vec<char>| w@).subrange(index as int + 1, parts@.len() as int) =~= command_moves(ws));
            match &r {
                Ok(_) => {
                    assert(command_setup(ws, p0) && played(p0, engine.position, command_moves(ws)));
                },
                Err(e) => {
                    let (i, m) = choose|i: int, m: Position|
                        index + 1 <= i < parts@.len() && #[trigger] played(p0, m, vec_texts(parts@).subrange(index + 1, i))
                            && step_error(m, parts@[i]@) == Some(e@) && engine.position.board.view() == m.board.view()
                            && engine.position.side == m.side;
                    assert(vec_texts(parts@) =~= ws);
                    assert(vec_texts(parts@).subrange(index + 1, i) =~= command_moves(ws).take(i - index - 1));
                    assert(command_moves(ws)[i - index - 1] == parts@[i]@);
                    assert(played(p0, m, command_moves(ws).take(i - index - 1)));
                },
            }
        }
        return r;
    }
    proof {
        assert(command_moves(ws) =~= Seq::<Seq<char>>::empty());
        lemma_played_none(p0);
        assert(command_setup(ws, p0) && played(p0, engine.position, command_moves(ws)));
    }
    Ok(())
}


/// The values a `go` command sets, as far as read.
#[derive(Clone, Copy)]
pub struct GoFields {
    pub wtime: Option<u64>,
    pub btime: Option<u64>,
    pub winc: Option<u64>,
    pub binc: Option<u64>,
    pub movetime: Option<u64>,
    pub max_depth: Option<u16>,
    pub max_nodes: Option<usize>,
}

/// The number a word holds when it is at most `max`.
pub open spec fn word_number(w: Seq<char>, max: int) -> Option<int> {
    parse_unsigned_spec(w, max)
}

/// The values set by the words of a `go` command from word `i` on, starting
/// from `f`: each of `wtime`, `btime`, `winc`, `binc`, `movetime`, `depth` and
/// `nodes` followed by a word sets its value to that word's number (or to
/// nothing when it is not one); `infinite` sets the depth to 100; other words are skipped.
pub open spec fn go_scan(ws: Seq<Seq<char>>, i: int, f: GoFields) -> GoFields
    decreases ws.len() - i,
{
    if i < 1 || i >= ws.len() {
        f
    } else {
        let w = ws[i];
        let has_next = i + 1 < ws.len();
        if w == "infinite"@ {
            go_scan(ws, i + 1, GoFields { max_depth: Some(100u16), ..f })
        } else if (w == "wtime"@ || w == "btime"@ || w == "winc"@ || w == "binc"@ || w == "movetime"@ || w == "depth"@
            || w == "nodes"@) && has_next {
            let n = ws[i + 1];
            let u = match word_number(n, u64::MAX as int) {
                Some(v) => Some(v as u64),
                None => None,
            };
            let g = if w == "wtime"@ {
                GoFields { wtime: u, ..f }
            } else if w == "btime"@ {
                GoFields { btime: u, ..f }
            } else if w == "winc"@ {
                GoFields { winc: u, ..f }
            } else if w == "binc"@ {
                GoFields { binc: u, ..f }
            } else if w == "movetime"@ {
                GoFields { movetime: u, ..f }
            } else if w == "depth"@ {
                GoFields {
                    max_depth: match word_number(n, u16::MAX as int) {
                        Some(v) => Some(v as u16),
                        None => None,
                    },
                    ..f
                }
            } else {
                GoFields {
                    max_nodes: match word_number(n, usize::MAX as int) {
                        Some(v) => Some(v as usize),
                        None => None,
                    },
                    ..f
                }
            };
            go_scan(ws, i + 2, g)
        } else {
            go_scan(ws, i + 1, f)
        }
    }
}

/// Reads the number a word holds when it is at most `max`.
fn number_word(w: &Vec<char>, max: u64) -> (r: Option<u64>)
    ensures
        r matches Some(v) ==> word_number(w@, max as int) == Some(v as int),
        r is None ==> word_number(w@, max as int) is None,
{
    parse_unsigned(w, max)
}

/// Parses a UCI `go` command (such as `go depth 10`, `go movetime 5000` or
/// `go wtime 300000 btime 300000 winc 0 binc 0`) and updates the search
/// settings with each value it sets.
pub fn parse_go_command(engine: &mut Engine, command: &str)
    ensures
        ({
            let f = go_scan(words(command@), 1, GoFields {
                wtime: None, btime: None, winc: None, binc: None, movetime: None, max_depth: None, max_nodes: None });
            let a = old(engine).search_settings;
            let b = final(engine).search_settings;
            &&& b.wtime == (match f.wtime { Some(v) => v, None => a.wtime })
            &&& b.btime == (match f.btime { Some(v) => v, None => a.btime })
            &&& b.winc == (match f.winc { Some(v) => v, None => a.winc })
            &&& b.binc == (match f.binc { Some(v) => v, None => a.binc })
            &&& b.movetime == (match f.movetime { Some(v) => Some(v), None => a.movetime })
            &&& b.max_depth == (match f.max_depth { Some(v) => v, None => a.max_depth })
            &&& b.max_nodes == (match f.max_nodes { Some(v) => Some(v), None => a.max_nodes })
        }),
        final(engine).position == old(engine).position,
        final(engine).difficulty == old(engine).difficulty,
        final(engine).computer_side == old(engine).computer_side,
{
    let chars = chars_of(command);
    let parts = split_words(&chars);
    let ghost ws = words(command@);
    proof {
        assert(parts@.map_values(|w: Vec<char>| w@) =~= ws);
    }
    let ghost f0 = GoFields { wtime: None, btime: None, winc: None, binc: None, movetime: None, max_depth: None, max_nodes: None };
    let mut f = GoFields { wtime: None, btime: None, winc: None, binc: None, movetime: None, max_depth: None, max_nodes: None };
    let mut i: usize = 1;
    while i < parts.len()
        invariant
            1 <= i,
            parts@.map_values(|w: Vec<char>| w@) == ws,
            go_scan(ws, 1, f0) == go_scan(ws, i as int, f),
        decreases parts.len() - i,
    {
        let w = &parts[i];
        let has_next = i + 1 < parts.len();
        proof {
            assert(w@ == ws[i as int]);
        }
        if crate::fen::is_text(w, "infinite") {
            f = GoFields { max_depth: Some(100u16), ..f };
            i = i + 1;
        } else if has_next && (crate::fen::is_text(w, "wtime") || crate::fen::is_text(w, "btime") || crate::fen::is_text(w, "winc")
            || crate::fen::is_text(w, "binc") || crate::fen::is_text(w, "movetime") || crate::fen::is_text(w, "depth")
            || crate::fen::is_text(w, "nodes")) {
            let n = &parts[i + 1];
            proof {
                assert(n@ == ws[i + 1]);
            }
            let u = number_word(n, u64::MAX);
            if crate::fen::is_text(w, "wtime") {
                f = GoFields { wtime: u, ..f };
            } else if crate::fen::is_text(w, "btime") {
                f = GoFields { btime: u, ..f };
            } else if crate::fen::is_text(w, "winc") {
                f = GoFields { winc: u, ..f };
            } else if crate::fen::is_text(w, "binc") {
                f = GoFields { binc: u, ..f };
            } else if crate::fen::is_text(w, "movetime") {
                f = GoFields { movetime: u, ..f };
            } else if crate::fen::is_text(w, "depth") {
                let d = match number_word(n, 65535) {
                    Some(v) => Some(v as u16),
                    None => None,
                };
                f = GoFields { max_depth: d, ..f };
            } else {
                let m = match number_word(n, usize::MAX as u64) {
                    Some(v) => Some(v as usize),
                    None => None,
                };
                f = GoFields { max_nodes: m, ..f };
            }
            i = i + 2;
        } else {
            i = i + 1;
        }
    }
    if let Some(v) = f.wtime {
        engine.search_settings.wtime = v;
    }
    if let Some(v) = f.btime {
        engine.search_settings.btime = v;
    }
    if let Some(v) = f.winc {
        engine.search_settings.winc = v;
    }
    if let Some(v) = f.binc {
        engine.search_settings.binc = v;
    }
    if let Some(v) = f.movetime {
        engine.search_settings.movetime = Some(v);
    }
    if let Some(v) = f.max_depth {
        engine.search_settings.max_depth = v;
    }
    if let Some(v) = f.max_nodes {
        engine.search_settings.max_nodes = Some(v);
    }
}

} // verus!
