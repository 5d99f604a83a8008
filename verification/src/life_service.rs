//! The accumulate logic of the Game of Life service.
//!
//! The service keeps the board size and the board in its storage. Each
//! accumulation reads both, advances the game by as many generations as the
//! slot number, and writes both back. The storage calls are made by the
//! caller; this module computes what is written from what was read.
use vstd::prelude::*;
use crate::codec::entry_view;
use crate::game::{Game, dead_board, decode_board, encode_rows, is_square, life_step, lemma_decode_encode};

verus! {

/// The board size used when none is stored.
pub const DEFAULT_SIZE: u32 = 8;

/// Byte `i` of a stored value, or zero past its end.
pub open spec fn padded_byte(b: Seq<u8>, i: int) -> nat {
    if 0 <= i < b.len() {
        b[i] as nat
    } else {
        0
    }
}

/// The number that up to four stored bytes give, read little-endian with the
/// missing high bytes zero.
pub open spec fn le_value(b: Seq<u8>) -> nat {
    padded_byte(b, 0) + 256 * padded_byte(b, 1) + 65536 * padded_byte(b, 2) + 16777216
        * padded_byte(b, 3)
}

/// The board size that a storage read gives: the stored value, or the
/// default when nothing is stored.
pub open spec fn stored_size(entry: Option<Seq<u8>>) -> nat {
    match entry {
        Some(b) => le_value(b),
        None => DEFAULT_SIZE as nat,
    }
}

/// The four little-endian bytes of a size.
pub open spec fn size_bytes(size: u32) -> Seq<u8> {
    seq![
        (size & 0xff) as u8,
        ((size >> 8) & 0xff) as u8,
        ((size >> 16) & 0xff) as u8,
        ((size >> 24) & 0xff) as u8,
    ]
}

/// The board the game starts from: the stored board if its length, taken
/// modulo 2^32, is `size * size`, else an empty board.
pub open spec fn initial_board(size: nat, entry: Option<Seq<u8>>) -> Seq<Seq<bool>> {
    match entry {
        Some(b) => if (b.len() as u32) as nat == size * size {
            decode_board(size, b)
        } else {
            dead_board(size)
        },
        None => dead_board(size),
    }
}

/// The board `steps` generations later.
pub open spec fn generations(cells: Seq<Seq<bool>>, steps: nat) -> Seq<Seq<bool>>
    decreases steps,
{
    if steps == 0 {
        cells
    } else {
        life_step(generations(cells, (steps - 1) as nat))
    }
}

/// The storage key of the board size: `size`.
pub fn size_key() -> (key: Vec<u8>)
    ensures
        key@ == seq![115u8, 105u8, 122u8, 101u8],
{
    let mut key = Vec::new();
    key.push(115u8);
    key.push(105u8);
    key.push(122u8);
    key.push(101u8);
    assert(key@ =~= seq![115u8, 105u8, 122u8, 101u8]);
    key
}

/// The storage key of the board: `board`.
pub fn board_key() -> (key: Vec<u8>)
    ensures
        key@ == seq![98u8, 111u8, 97u8, 114u8, 100u8],
{
    let mut key = Vec::new();
    key.push(98u8);
    key.push(111u8);
    key.push(97u8);
    key.push(114u8);
    key.push(100u8);
    assert(key@ =~= seq![98u8, 111u8, 97u8, 114u8, 100u8]);
    key
}

fn byte_at(v: &Vec<u8>, i: usize) -> (b: u64)
    ensures
        b == padded_byte(v@, i as int),
{
    if i < v.len() {
        v[i] as u64
    } else {
        0
    }
}

/// The board size that a storage read gives. A stored value is read as a
/// little-endian number of at most four bytes.
pub fn decode_size(entry: &Option<Vec<u8>>) -> (size: u32)
    requires
        entry matches Some(v) ==> v@.len() <= 4,
    ensures
        size == stored_size(entry_view(*entry)),
{
    match entry {
        Some(v) => {
            let b0 = byte_at(v, 0);
            let b1 = byte_at(v, 1);
            let b2 = byte_at(v, 2);
            let b3 = byte_at(v, 3);
            let value = b0 + 256 * b1 + 65536 * b2 + 16777216 * b3;
            value as u32
        },
        None => DEFAULT_SIZE,
    }
}

/// The four little-endian bytes of a size, as stored.
pub fn encode_size(size: u32) -> (bytes: Vec<u8>)
    ensures
        bytes@ == size_bytes(size),
{
    let mut bytes = Vec::new();
    bytes.push((size & 0xff) as u8);
    bytes.push(((size >> 8) & 0xff) as u8);
    bytes.push(((size >> 16) & 0xff) as u8);
    bytes.push(((size >> 24) & 0xff) as u8);
    assert(bytes@ =~= size_bytes(size));
    bytes
}

/// A size written with `encode_size` reads back as the same size.
pub proof fn lemma_size_roundtrip(size: u32)
    ensures
        stored_size(Some(size_bytes(size))) == size,
{
    let b = size_bytes(size);
    assert(((size & 0xff) as u8) as nat + 256 * (((size >> 8) & 0xff) as u8) as nat + 65536 * ((
    (size >> 16) & 0xff) as u8) as nat + 16777216 * (((size >> 24) & 0xff) as u8) as nat == size)
        by (bit_vector);
}

/// What one accumulation writes back: the size bytes and the board bytes,
/// from the stored size, the stored board and the slot number, which is the
/// number of generations to run.
///
/// The stored size is read from at most four bytes; `size * size` is computed
/// in 32 bits and must not overflow; a stored board whose length matches
/// modulo 2^32 must match exactly; and the game can only advance on a board
/// of at most one cell (see `Game::next_step`).
pub fn accumulate(size_entry: Option<Vec<u8>>, board_entry: Option<Vec<u8>>, now: u32) -> (out: (
    Vec<u8>,
    Vec<u8>,
))
    requires
        size_entry matches Some(v) ==> v@.len() <= 4,
        stored_size(entry_view(size_entry)) * stored_size(entry_view(size_entry)) <= u32::MAX,
        board_entry matches Some(v) ==> ((v@.len() as u32) as nat == stored_size(
            entry_view(size_entry),
        ) * stored_size(entry_view(size_entry)) ==> v@.len() == stored_size(entry_view(size_entry))
            * stored_size(entry_view(size_entry))),
        now == 0 || stored_size(entry_view(size_entry)) <= 1,
    ensures
        ({
            let size = stored_size(entry_view(size_entry));
            &&& out.0@ == size_bytes(size as u32)
            &&& out.1@ == encode_rows(
                generations(initial_board(size, entry_view(board_entry)), now as nat),
            )
        }),
{
    let ghost n = stored_size(entry_view(size_entry));
    let size = decode_size(&size_entry);
    let mut game = match board_entry {
        Some(v) => {
            if (v.len() as u32) == size * size {
                Game::new(size, v.as_slice())
            } else {
                Game::empty(size)
            }
        },
        None => Game::empty(size),
    };
    let ghost start = game@;
    assert(start == initial_board(n, entry_view(board_entry)));
    let mut i: u32 = 0;
    while i < now
        invariant
            i <= now,
            now == 0 || n <= 1,
            game.wf(),
            game@ == generations(start, i as nat),
            game@.len() == n,
        decreases now - i,
    {
        let mutations = game.next_step();
        proof {
            crate::game::lemma_next_step_then_mutate(game);
        }
        game.mutate(mutations.as_slice());
        i += 1;
    }
    let size_bytes = encode_size(size);
    let board_bytes = game.export();
    (size_bytes, board_bytes)
}

/// What one accumulation stores is what the next one reads: the stored size
/// reads back as the size, and the stored board, whose length is then
/// `size * size`, as the board.
pub proof fn lemma_state_persists(size: u32, cells: Seq<Seq<bool>>)
    requires
        is_square(cells),
        cells.len() == size,
        size * size <= u32::MAX,
    ensures
        stored_size(Some(size_bytes(size))) == size,
        initial_board(size as nat, Some(encode_rows(cells))) == cells,
{
    lemma_size_roundtrip(size);
    lemma_decode_encode(cells);
}

} // verus!
