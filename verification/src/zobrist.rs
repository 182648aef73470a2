use vstd::prelude::*;

verus! {

/// A random 64-bit number from the thread's random generator
/// (`rand::thread_rng().gen::<u64>()`). Any value may come back.
#[verifier::external_body]
fn random_u64() -> (r: u64) {
    rand::Rng::gen::<u64>(&mut rand::thread_rng())
}

/// Random keys for hashing positions: one per side, piece kind and square (none
/// for the empty kind), one for the side to move, one per castle-rights state
/// and one per en passant file.
pub struct ZobristTables {
    pub pieces: Vec<Vec<Vec<u64>>>,
    pub side_to_move: u64,
    pub castle: Vec<u64>,
    pub en_passant: Vec<u64>,
}

/// Fills `n` random keys.
fn random_keys(n: usize) -> (r: Vec<u64>)
    ensures
        r@.len() == n,
{
    let mut v: Vec<u64> = Vec::new();
    let mut i: usize = 0;
    while i < n
        invariant
            i <= n,
            v@.len() == i,
        decreases n - i,
    {
        v.push(random_u64());
        i = i + 1;
    }
    v
}

/// Draws a fresh set of random keys: 2 sides by 7 piece kinds by 64 squares
/// (the keys of the empty kind are zero), 16 castle-rights keys and 8 en passant
/// keys.
pub fn initialize_zobrist_hash_tables() -> (r: ZobristTables)
    ensures
        r.pieces@.len() == 2,
        forall|s: int| 0 <= s < 2 ==> #[trigger] r.pieces@[s]@.len() == 7,
        forall|s: int, p: int| 0 <= s < 2 && 0 <= p < 7 ==> #[trigger] r.pieces@[s]@[p]@.len() == 64,
        forall|s: int, i: int| 0 <= s < 2 && 0 <= i < 64 ==> #[trigger] r.pieces@[s]@[6]@[i] == 0,
        r.castle@.len() == 16,
        r.en_passant@.len() == 8,
{
    let mut pieces: Vec<Vec<Vec<u64>>> = Vec::new();
    let mut s: usize = 0;
    while s < 2
        invariant
            s <= 2,
            pieces@.len() == s,
            forall|a: int| 0 <= a < s ==> #[trigger] pieces@[a]@.len() == 7,
            forall|a: int, p: int| 0 <= a < s && 0 <= p < 7 ==> #[trigger] pieces@[a]@[p]@.len() == 64,
            forall|a: int, i: int| 0 <= a < s && 0 <= i < 64 ==> #[trigger] pieces@[a]@[6]@[i] == 0,
        decreases 2 - s,
    {
        let mut kinds: Vec<Vec<u64>> = Vec::new();
        let mut p: usize = 0;
        while p < 6
            invariant
                p <= 6,
                kinds@.len() == p,
                forall|q: int| 0 <= q < p ==> #[trigger] kinds@[q]@.len() == 64,
            decreases 6 - p,
        {
            kinds.push(random_keys(64));
            p = p + 1;
        }
        let empty: Vec<u64> = vec![0u64; 64];
        kinds.push(empty);
        pieces.push(kinds);
        s = s + 1;
    }
    let side_to_move = random_u64();
    let castle = random_keys(16);
    let en_passant = random_keys(8);
    ZobristTables { pieces, side_to_move, castle, en_passant }
}

} // verus!
