use vstd::prelude::*;

use crate::board::{uci_parse, uci_text};
use crate::fen::{fen_error, fen_position, fen_ranks, fen_side, fen_text, fen_unloadable, ranks_view};
use crate::legal::{in_list, legal_move, legal_text};
use crate::position::Position;
use crate::rules::{attacked, has_king};
use crate::tables::square_of;
use crate::text::{chars_message, chars_of};
use crate::types::{Board, Side};
use crate::uci::{byte_len, contains_text, lemma_played_none, move_text_error, played, played_step, playable_root, step_room};

verus! {

/// A FEN text the loader reads without stopping the program.
pub open spec fn fen_readable(fen: Seq<char>) -> bool {
    fen.len() * 9 + 9 <= usize::MAX && !fen_unloadable(fen, Side::White, crate::constants::GAME_STACK as int)
}

/// The texts of a list of string slices.
pub open spec fn texts_of(moves: Seq<&str>) -> Seq<Seq<char>> {
    moves.map_values(|m: &str| m@)
}

/// The legal moves, in UCI notation, of the position a FEN text describes.
pub fn get_legal_moves(fen: &str) -> (r: Result<Vec<String>, String>)
    requires
        fen_readable(fen@),
        fen_error(fen@, Side::White) is None ==> has_king(ranks_view(fen_ranks(fen@)), fen_side(fen@, Side::White)),
        fen_error(fen@, Side::White) is None ==> crate::fen::fen_ply(fen@, fen_side(fen@, Side::White)) + 1
            < crate::constants::GAME_STACK && crate::fen::fen_fifty(fen@) < 255,
    ensures
        r matches Err(e) ==> fen_error(fen@, Side::White) == Some(e@),
        r is Ok <==> fen_error(fen@, Side::White) is None,
        r matches Ok(list) ==> exists|p: Position| #[trigger] fen_position(p, fen@) && (forall|k: int|
            0 <= k < list@.len() ==> legal_text(p, #[trigger] list@[k]@)) && (forall|f: int, t: int, q|
            #[trigger] legal_move(p, f, t, q) ==> in_list(list@, uci_text(f, t, q, false))) && (forall|t: Seq<char>|
            #[trigger] in_list(list@, t) <==> legal_text(p, t)) && (crate::movegen::generation_clean(p, p.side)
            ==> crate::legal::distinct_texts(list@)),
{
    let mut pos = match Position::from_fen(fen) {
        Ok(p) => p,
        Err(e) => {
            return Err(e);
        },
    };
    let ghost p0 = pos;
    let list = pos.get_legal_moves();
    proof {
        assert(fen_position(p0, fen@));
    }
    Ok(list)
}

/// The color a name stands for: `white` or `w`, `black` or `b`, in any case.
pub open spec fn color_of(name: Seq<char>) -> Option<Side> {
    let l = lowered(name);
    if l == "white"@ || l == "w"@ {
        Some(Side::White)
    } else if l == "black"@ || l == "b"@ {
        Some(Side::Black)
    } else {
        None
    }
}

/// A text with its ASCII capitals (and the Kelvin sign) lowered, as
/// `to_lowercase` lowers them; other characters are kept.
pub open spec fn lowered(s: Seq<char>) -> Seq<char> {
    s.map_values(|c: char| lower_char(c))
}

/// A character lowered as far as the color names go.
pub open spec fn lower_char(c: char) -> char {
    if 'A' <= c <= 'Z' {
        ((c as int) + 32) as char
    } else if c as u32 == 0x212A {
        'k'
    } else {
        c
    }
}

fn lower(c: char) -> (r: char)
    ensures
        r == lower_char(c),
{
    if 'A' <= c && c <= 'Z' {
        ((c as u8) + 32) as char
    } else if c as u32 == 0x212A {
        'k'
    } else {
        c
    }
}

/// Reads a color name.
fn color_from(name: &str) -> (r: Option<Side>)
    ensures
        r == color_of(name@),
{
    let chars = chars_of(name);
    let mut low: Vec<char> = Vec::new();
    let mut i: usize = 0;
    while i < chars.len()
        invariant
            i <= chars@.len(),
            chars@ == name@,
            low@ == chars@.take(i as int).map_values(|c: char| lower_char(c)),
        decreases chars.len() - i,
    {
        low.push(lower(chars[i]));
        i = i + 1;
        proof {
            assert(low@ =~= chars@.take(i as int).map_values(|c: char| lower_char(c)));
        }
    }
    proof {
        assert(chars@.take(chars@.len() as int) =~= chars@);
    }
    if crate::fen::is_text(&low, "white") || crate::fen::is_text(&low, "w") {
        Some(Side::White)
    } else if crate::fen::is_text(&low, "black") || crate::fen::is_text(&low, "b") {
        Some(Side::Black)
    } else {
        None
    }
}

/// Whether the square named `square` (such as `e4`) is attacked by the side
/// named `by_color` (`white` or `black`) in the position a FEN text describes.
pub fn is_square_attacked(fen: &str, square: &str, by_color: &str) -> (r: Result<bool, String>)
    requires
        fen_readable(fen@),
        !(byte_len(square@) == 2 && square@.len() < 2),
        square@.len() <= usize::MAX / 4,
    ensures
        fen_error(fen@, Side::White) matches Some(m) ==> (r matches Err(e) && e@ == m),
        fen_error(fen@, Side::White) is None && color_of(by_color@) is None ==> (r matches Err(e) && e@
            == "Invalid color: '"@ + by_color@ + "'. Use 'white' or 'black'."@),
        fen_error(fen@, Side::White) is None && color_of(by_color@) is Some && byte_len(square@) != 2 ==> (r matches Err(e)
            && e@ == "Invalid square: '"@ + square@ + "'. Use algebraic notation like 'e4'."@),
        fen_error(fen@, Side::White) is None && color_of(by_color@) is Some && byte_len(square@) == 2 && !('a' <= square@[0]
            <= 'h' && '1' <= square@[1] <= '8') ==> (r matches Err(e) && e@ == "Invalid square: '"@ + square@
            + "'. Files a-h, ranks 1-8."@),
        fen_error(fen@, Side::White) is None && color_of(by_color@) is Some && byte_len(square@) == 2 && 'a' <= square@[0]
            <= 'h' && '1' <= square@[1] <= '8' ==> r is Ok,
        match r {
            Ok(b) => fen_error(fen@, Side::White) is None && byte_len(square@) == 2 && 'a' <= square@[0] <= 'h' && '1'
                <= square@[1] <= '8' && (color_of(by_color@) matches Some(side) && b == attacked(
                ranks_view(fen_ranks(fen@)),
                side,
                (square@[1] as int - 49) * 8 + (square@[0] as int - 97),
            )),
            Err(_) => true,
        },
{
    let pos = match Position::from_fen(fen) {
        Ok(p) => p,
        Err(e) => {
            return Err(e);
        },
    };
    let side = match color_from(by_color) {
        Some(s) => s,
        None => {
            let m = crate::text::message("Invalid color: '", by_color);
            return Err(crate::fen::append_text(m, "'. Use 'white' or 'black'."));
        },
    };
    let chars = chars_of(square);
    let n = crate::uci::utf8_length(&chars);
    if n != 2 {
        let m = crate::text::message("Invalid square: '", square);
        return Err(crate::fen::append_text(m, "'. Use algebraic notation like 'e4'."));
    }
    let f = chars[0];
    let k = chars[1];
    if !('a' <= f && f <= 'h' && '1' <= k && k <= '8') {
        let m = crate::text::message("Invalid square: '", square);
        return Err(crate::fen::append_text(m, "'. Files a-h, ranks 1-8."));
    }
    let sq = square_of((k as u32 - 49) as usize * 8 + (f as u32 - 97) as usize);
    Ok(pos.is_square_attacked_by_side(side, sq))
}

/// Why the move text `w` is refused in `m` by `apply_moves`, if it is: no room
/// to play, a text that is not among the legal moves of `m`, or (for a legal
/// text, never) a text that does not read as a move.
pub open spec fn apply_step_error(m: Position, w: Seq<char>) -> Option<Seq<char>> {
    if !step_room(m) {
        Some("Failed to make move: "@ + w)
    } else if !legal_text(m, w) {
        Some("Illegal move: "@ + w)
    } else {
        move_text_error(w)
    }
}

/// Plays the move text `w` as `apply_moves` does: it must be among the legal
/// moves of the position.
#[verifier::rlimit(80)]
#[verifier::spinoff_prover]
fn apply_move_text(pos: &mut Position, w: &Vec<char>) -> (r: Result<(), String>)
    requires
        playable_root(*old(pos)),
        w@.len() <= usize::MAX / 4,
    ensures
        r is Ok <==> apply_step_error(*old(pos), w@) is None,
        r matches Err(e) ==> apply_step_error(*old(pos), w@) == Some(e@),
        r is Ok ==> playable_root(*final(pos)) && exists|x: Position, y: Position| #[trigger] played_step(*old(pos), x, y, *final(pos), w@),
{
    let ghost m = *pos;
    let side = pos.side;
    if !pos.king_present(side) || pos.ply_from_start_of_game >= pos.game_list.len()
        || pos.game_list.len() - pos.ply_from_start_of_game < 2 || pos.fifty >= 255 {
        return Err(chars_message("Failed to make move: ", w));
    }
    let legal = pos.get_legal_moves();
    let ghost x = *pos;
    let raw = crate::text::string_of(w);
    if !contains_text(&legal, &raw) {
        return Err(chars_message("Illegal move: ", w));
    }
    let data = match crate::uci::move_from_chars(w) {
        Ok(d) => d,
        Err(e) => {
            return Err(e);
        },
    };
    let from = data.from;
    let to = data.to;
    let promote = data.promote;
    proof {
        crate::uci::lemma_legal_parse(m, w@, from as int, to as int, promote);
    }
    if !pos.move_playable(from, to, promote) {
        return Err(chars_message("Failed to make move: ", w));
    }
    if !pos.make_move_with_promotion(from, to, promote) {
        return Err(chars_message("Failed to make move: ", w));
    }
    let ghost y = *pos;
    pos.ply = 0;
    proof {
        crate::square::lemma_square_at(from as int);
        crate::square::lemma_square_at(to as int);
        assert(played_step(m, x, y, *pos, w@));
    }
    Ok(())
}

/// Plays the moves (in UCI notation) from the position a FEN text describes and
/// returns the FEN text of the result; each move must be among the legal moves
/// of the position it is played in, and the first that is not is refused.
pub fn apply_moves(fen: &str, moves: &[&str]) -> (r: Result<String, String>)
    requires
        fen_readable(fen@),
        forall|i: int| 0 <= i < moves@.len() ==> (#[trigger] moves@[i])@.len() <= usize::MAX / 4,
    ensures
        fen_error(fen@, Side::White) matches Some(m) ==> (r matches Err(e) && e@ == m),
        r matches Ok(s) ==> exists|p: Position, q: Position| #[trigger] fen_position(p, fen@) && #[trigger] played(p, q, texts_of(moves@))
            && s@ == fen_text(q),
        match r {
            Err(e) => fen_error(fen@, Side::White) is None ==> exists|p: Position, i: int, m: Position|
                fen_position(p, fen@) && 0 <= i < moves@.len() && #[trigger] played(p, m, texts_of(moves@).take(i))
                    && apply_step_error(m, moves@[i]@) == Some(e@),
            Ok(_) => true,
        },
{
    let mut pos = match Position::from_fen(fen) {
        Ok(p) => p,
        Err(e) => {
            return Err(e);
        },
    };
    let ghost p0 = pos;
    let ghost texts = texts_of(moves@);
    let mut i: usize = 0;
    proof {
        lemma_played_none(p0);
        assert(texts.take(0) =~= Seq::<Seq<char>>::empty());
    }
    while i < moves.len()
        invariant
            i <= moves@.len(),
            texts == texts_of(moves@),
            forall|j: int| 0 <= j < moves@.len() ==> (#[trigger] moves@[j])@.len() <= usize::MAX / 4,
            fen_position(p0, fen@),
            fen_error(fen@, Side::White) is None,
            playable_root(pos),
            played(p0, pos, texts.take(i as int)),
        decreases moves.len() - i,
    {
        let w = chars_of(moves[i]);
        let ghost m = pos;
        let res = apply_move_text(&mut pos, &w);
        if let Err(e) = res {
            proof {
                assert(w@ == moves@[i as int]@);
                assert(played(p0, m, texts_of(moves@).take(i as int)));
            }
            return Err(e);
        }
        proof {
            let (x, y) = choose|x: Position, y: Position| #[trigger] played_step(m, x, y, pos, w@);
            crate::uci::lemma_played_push(p0, m, x, y, pos, texts.take(i as int), w@);
            assert(texts.take(i as int).push(w@) =~= texts.take(i as int + 1));
        }
        i = i + 1;
    }
    proof {
        assert(texts.take(moves@.len() as int) =~= texts);
    }
    let s = pos.to_fen();
    proof {
        assert(fen_position(p0, fen@) && played(p0, pos, texts));
    }
    Ok(s)
}

} // verus!
