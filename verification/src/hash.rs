use vstd::prelude::*;

use crate::constants::NUM_HASH_SLOTS;
use crate::types::{Move, Piece, Side, Square};

verus! {

/// Number of keys of the Zobrist table: 768 for the pieces, 4 for the castle
/// rights, 8 for the en passant files and 1 for the side to move.
pub const NUM_KEYS: usize = 781;

/// Index of the key toggled when the side to move changes.
pub const SIDE_TO_MOVE_KEY: usize = 780;

/// Index of the first of the four castle-right keys.
pub const CASTLE_KEY: usize = 768;

/// Index of the first of the eight en passant file keys.
pub const EN_PASSANT_KEY: usize = 772;

/// The mixing step that turns an index into a key (a bijection of `u64`).
#[verifier::opaque]
pub open spec fn mix64(x: u64) -> u64 {
    let z1 = x.wrapping_mul(0x9E37_79B9_7F4A_7C15u64);
    let z2 = (z1 ^ (z1 >> 30u64)).wrapping_mul(0xBF58_476D_1CE4_E5B9u64);
    let z3 = (z2 ^ (z2 >> 27u64)).wrapping_mul(0x94D0_49BB_1331_11EBu64);
    z3 ^ (z3 >> 31u64)
}

/// The Zobrist key with index `i` (0 to 780).
pub open spec fn zobrist_key(i: int) -> u64 {
    mix64((i + 1) as u64)
}

/// The key of a piece of a side on the square with index `sq`; an empty square has key 0.
/// Keys are laid out as black pawn, white pawn, black knight, ... white king,
/// 64 squares each.
pub open spec fn piece_key(side: Side, piece: Piece, sq: int) -> u64 {
    if piece == Piece::Empty {
        0
    } else {
        zobrist_key(64 * (2 * (piece as int) + (if side == Side::White { 1int } else { 0int })) + sq)
    }
}

/// What the key changes by when castle rights go from `old` to `new`.
pub open spec fn castle_delta(old: u8, new: u8) -> u64 {
    (if old & 1 != new & 1 { zobrist_key(768) } else { 0u64 }) ^ (if old & 2 != new & 2 {
        zobrist_key(769)
    } else {
        0u64
    }) ^ (if old & 4 != new & 4 { zobrist_key(770) } else { 0u64 }) ^ (if old & 8 != new & 8 {
        zobrist_key(771)
    } else {
        0u64
    })
}

/// The key of an en passant file; no file, or a file out of range, has key 0.
pub open spec fn en_passant_key(file: Option<u8>) -> u64 {
    match file {
        Some(f) => if f < 8 { zobrist_key(772 + f) } else { 0u64 },
        None => 0u64,
    }
}

/// Computes the Zobrist key with index `i`.
pub fn key_at(i: usize) -> (r: u64)
    requires
        i < NUM_KEYS,
    ensures
        r == zobrist_key(i as int),
{
    proof {
        reveal(mix64);
    }
    let x: u64 = (i as u64) + 1;
    let z1 = x.wrapping_mul(0x9E37_79B9_7F4A_7C15u64);
    let z2 = (z1 ^ (z1 >> 30u64)).wrapping_mul(0xBF58_476D_1CE4_E5B9u64);
    let z3 = (z2 ^ (z2 >> 27u64)).wrapping_mul(0x94D0_49BB_1331_11EBu64);
    z3 ^ (z3 >> 31u64)
}

/// An entry of the transposition table.
#[derive(Clone, Copy)]
pub struct HashEntry {
    /// The key of the position stored here, to detect collisions.
    pub hash_key: u64,
    /// Best move found for the position.
    pub best_move: Option<Move>,
    /// Search depth at which the entry was stored.
    pub depth: u8,
    /// Score of the position.
    pub score: i32,
}

impl Default for HashEntry {
    fn default() -> (r: Self)
        ensures
            r.hash_key == 0,
            r.best_move is None,
            r.depth == 0,
            r.score == 0,
    {
        HashEntry { hash_key: 0, best_move: None, depth: 0, score: 0 }
    }
}

/// The transposition table: a fixed number of slots, each holding one entry.
pub struct HashTable {
    entries: Vec<HashEntry>,
}

impl HashTable {
    /// The entries of the table.
    pub closed spec fn entries(&self) -> Seq<HashEntry> {
        self.entries@
    }

    /// A table with `NUM_HASH_SLOTS` empty entries.
    pub fn new() -> (r: Self)
        ensures
            r.entries().len() == NUM_HASH_SLOTS,
            forall|i: int|
                0 <= i < NUM_HASH_SLOTS ==> #[trigger] r.entries()[i].hash_key == 0
                    && r.entries()[i].best_move is None && r.entries()[i].depth == 0
                    && r.entries()[i].score == 0,
    {
        let mut entries: Vec<HashEntry> = Vec::new();
        let mut i: usize = 0;
        while i < NUM_HASH_SLOTS
            invariant
                i <= NUM_HASH_SLOTS,
                entries@.len() == i,
                forall|j: int|
                    0 <= j < i ==> #[trigger] entries@[j].hash_key == 0
                        && entries@[j].best_move is None && entries@[j].depth == 0
                        && entries@[j].score == 0,
            decreases NUM_HASH_SLOTS - i,
        {
            entries.push(HashEntry::default());
            i = i + 1;
        }
        HashTable { entries }
    }

    /// The entry at the given index.
    fn get(&self, index: usize) -> (r: &HashEntry)
        requires
            index < self.entries().len(),
        ensures
            *r == self.entries()[index as int],
    {
        &self.entries[index]
    }

    /// Replaces the entry at the given index.
    fn set(&mut self, index: usize, entry: HashEntry)
        requires
            index < old(self).entries().len(),
        ensures
            final(self).entries() == old(self).entries().update(index as int, entry),
    {
        self.entries.set(index, entry);
    }
}

/// The incrementally updated Zobrist key of a position, with the transposition table.
pub struct Hash {
    /// The Zobrist key of the current position.
    pub current_key: u64,
    pub hash_table: HashTable,
}

/// The slot of the transposition table for a key.
pub open spec fn slot_of(key: u64) -> int {
    (key as usize) as int % (NUM_HASH_SLOTS as int)
}

impl Hash {
    /// The entries of the transposition table.
    pub closed spec fn table(&self) -> Seq<HashEntry> {
        self.hash_table.entries()
    }

    /// The table has its full number of slots.
    pub closed spec fn wf(&self) -> bool {
        self.hash_table.entries().len() == NUM_HASH_SLOTS
    }

    /// The table holds its full number of slots exactly when it is well formed;
    /// the table and its well-formedness depend on the table field alone, not on
    /// the key.
    pub proof fn lemma_table_only(a: Hash, b: Hash)
        requires
            a.hash_table == b.hash_table,
        ensures
            a.wf() == b.wf(),
            a.table() == b.table(),
            a.wf() == (a.table().len() == NUM_HASH_SLOTS),
    {
    }

    /// A key of zero and an empty table.
    pub fn new() -> (r: Self)
        ensures
            r.current_key == 0,
            r.wf(),
            forall|i: int|
                0 <= i < NUM_HASH_SLOTS ==> #[trigger] r.table()[i].hash_key == 0
                    && r.table()[i].best_move is None,
    {
        Hash { current_key: 0, hash_table: HashTable::new() }
    }

    /// Stores a move for the current position, unless the slot holds the same
    /// position from a deeper search.
    pub fn store_move(&mut self, move_: Move, depth: u8, score: i32)
        requires
            old(self).wf(),
        ensures
            final(self).wf(),
            final(self).current_key == old(self).current_key,
            ({
                let i = slot_of(old(self).current_key);
                let e = old(self).table()[i];
                if e.hash_key != old(self).current_key || depth >= e.depth {
                    final(self).table() == old(self).table().update(
                        i,
                        HashEntry {
                            hash_key: old(self).current_key,
                            best_move: Some(move_),
                            depth,
                            score,
                        },
                    )
                } else {
                    final(self).table() == old(self).table()
                }
            }),
    {
        let index = (self.current_key as usize) % NUM_HASH_SLOTS;
        let entry = *self.hash_table.get(index);
        if entry.hash_key != self.current_key || depth >= entry.depth {
            self.hash_table.set(
                index,
                HashEntry { hash_key: self.current_key, best_move: Some(move_), depth, score },
            );
        }
    }

    /// The entry for the current position, if its slot holds this position with a move.
    pub fn probe(&self) -> (r: Option<&HashEntry>)
        requires
            self.wf(),
        ensures
            ({
                let e = self.table()[slot_of(self.current_key)];
                if e.hash_key == self.current_key && e.best_move is Some {
                    r == Some(&e)
                } else {
                    r is None
                }
            }),
    {
        let index = (self.current_key as usize) % NUM_HASH_SLOTS;
        let entry = self.hash_table.get(index);
        if entry.hash_key == self.current_key && entry.best_move.is_some() {
            Some(entry)
        } else {
            None
        }
    }

    /// Toggles a piece of a side on a square in the key (call it for the square
    /// a piece leaves and for the square it reaches).
    pub fn toggle_piece(&mut self, side: Side, piece: Piece, square: Square)
        ensures
            final(self).current_key == old(self).current_key ^ piece_key(side, piece, square as int),
            final(self).table() == old(self).table(),
            final(self).wf() == old(self).wf(),
    {
        if piece == Piece::Empty {
            proof {
                lemma_xor_zero(self.current_key);
            }
            return;
        }
        let piece_index: usize = 2 * (piece as usize) + (if side == Side::White { 1usize } else { 0usize });
        let rank = square.rank() as usize;
        let file = square.file() as usize;
        let k = key_at(64 * piece_index + 8 * rank + file);
        self.current_key = self.current_key ^ k;
    }

    /// Toggles the side to move in the key.
    pub fn toggle_side_to_move(&mut self)
        ensures
            final(self).current_key == old(self).current_key ^ zobrist_key(780),
            final(self).table() == old(self).table(),
            final(self).wf() == old(self).wf(),
    {
        let k = key_at(SIDE_TO_MOVE_KEY);
        self.current_key = self.current_key ^ k;
    }

    /// Updates the key when the castle rights change from `old_castle` to `new_castle`.
    pub fn update_castle_rights(&mut self, old_castle: u8, new_castle: u8)
        ensures
            final(self).current_key == old(self).current_key ^ castle_delta(old_castle, new_castle),
            final(self).table() == old(self).table(),
            final(self).wf() == old(self).wf(),
    {
        let ghost k0 = self.current_key;
        if old_castle == new_castle {
            proof {
                lemma_castle_delta_same(old_castle);
                lemma_xor_zero(k0);
            }
            return;
        }
        let mut k = self.current_key;
        let a: u64 = if old_castle & 1 != new_castle & 1 { key_at(CASTLE_KEY) } else { 0 };
        let b: u64 = if old_castle & 2 != new_castle & 2 { key_at(CASTLE_KEY + 1) } else { 0 };
        let c: u64 = if old_castle & 4 != new_castle & 4 { key_at(CASTLE_KEY + 2) } else { 0 };
        let d: u64 = if old_castle & 8 != new_castle & 8 { key_at(CASTLE_KEY + 3) } else { 0 };
        k = k ^ a;
        k = k ^ b;
        k = k ^ c;
        k = k ^ d;
        proof {
            lemma_xor_assoc4(k0, a, b, c, d);
        }
        self.current_key = k;
    }

    /// Updates the key when the en passant file changes from `old_file` to `new_file`.
    pub fn update_en_passant(&mut self, old_file: Option<u8>, new_file: Option<u8>)
        ensures
            final(self).current_key == old(self).current_key ^ en_passant_key(old_file)
                ^ en_passant_key(new_file),
            final(self).table() == old(self).table(),
            final(self).wf() == old(self).wf(),
    {
        let ghost k0 = self.current_key;
        let mut a: u64 = 0;
        if let Some(f) = old_file {
            if f < 8 {
                a = key_at(EN_PASSANT_KEY + f as usize);
            }
        }
        let mut b: u64 = 0;
        if let Some(f) = new_file {
            if f < 8 {
                b = key_at(EN_PASSANT_KEY + f as usize);
            }
        }
        self.current_key = self.current_key ^ a;
        self.current_key = self.current_key ^ b;
    }
}

/// Xoring with zero changes nothing.
pub proof fn lemma_xor_zero(x: u64)
    ensures
        x ^ 0u64 == x,
{
    assert(x ^ 0u64 == x) by (bit_vector);
}

/// Xoring twice with the same value changes nothing.
pub proof fn lemma_xor_cancel(x: u64, y: u64)
    ensures
        x ^ y ^ y == x,
        y ^ y == 0,
{
    assert(x ^ y ^ y == x) by (bit_vector);
    assert(y ^ y == 0) by (bit_vector);
}

/// Xor is associative and commutative.
pub proof fn lemma_xor_ac(x: u64, y: u64, z: u64)
    ensures
        (x ^ y) ^ z == x ^ (y ^ z),
        x ^ y == y ^ x,
{
    assert((x ^ y) ^ z == x ^ (y ^ z)) by (bit_vector);
    assert(x ^ y == y ^ x) by (bit_vector);
}

proof fn lemma_xor_assoc4(k: u64, a: u64, b: u64, c: u64, d: u64)
    ensures
        k ^ a ^ b ^ c ^ d == k ^ (a ^ b ^ c ^ d),
{
    assert(k ^ a ^ b ^ c ^ d == k ^ (a ^ b ^ c ^ d)) by (bit_vector);
}

pub proof fn lemma_castle_delta_same(c: u8)
    ensures
        castle_delta(c, c) == 0,
{
    assert(0u64 ^ 0u64 ^ 0u64 ^ 0u64 == 0u64) by (bit_vector);
}

/// Changing castle rights from `a` to `b` and then back to `a` restores the key.
pub proof fn lemma_castle_delta_symmetric(a: u8, b: u8)
    ensures
        castle_delta(a, b) == castle_delta(b, a),
{
}

} // verus!
