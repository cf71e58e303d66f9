//! The hash of a position, kept up to date feature by feature.

use crate::base_structures::castle_rights::CastleRight;
use crate::base_structures::piece::{Man, Piece};
use crate::base_structures::square::Square;
use crate::geometry::file_of;
use vstd::prelude::*;

verus! {

/// The hash of a position: the exclusive-or of one key for every feature
/// that the position shows. A feature that appears or disappears changes
/// the hash by its key.
#[derive(Clone, Copy, PartialEq, Eq, Structural, Debug)]
pub struct ZobristKey(pub u64);

/// A fixed scrambling of 64 bits that spreads consecutive seeds apart.
pub open spec fn spec_mix(seed: u64) -> u64 {
    let a = (seed ^ (seed >> 30)).wrapping_mul(0xbf58_476d_1ce4_e5b9);
    let b = (a ^ (a >> 27)).wrapping_mul(0x94d0_49bb_1331_11eb);
    b ^ (b >> 31)
}

#[verifier::when_used_as_spec(spec_mix)]
pub fn mix(seed: u64) -> (r: u64)
    ensures
        r == spec_mix(seed),
{
    let a = (seed ^ (seed >> 30)).wrapping_mul(0xbf58_476d_1ce4_e5b9);
    let b = (a ^ (a >> 27)).wrapping_mul(0x94d0_49bb_1331_11eb);
    b ^ (b >> 31)
}

/// The position of a man's bitboard among the twelve of a board: white
/// before black, and within a colour in the order of [`Piece`].
pub open spec fn slot(white: bool, piece: Piece) -> int {
    (if white {
        0int
    } else {
        6int
    }) + piece.spec_index()
}

/// The key of a man on a square.
pub open spec fn piece_key(white: bool, piece: Piece, square: int) -> u64 {
    spec_mix((1 + slot(white, piece) * 64 + square) as u64)
}

/// The key of what a square shows: nothing for an empty square.
pub open spec fn square_key(man: Option<Man>, square: int) -> u64 {
    match man {
        Some(m) => piece_key(m.white, m.piece, square),
        None => 0,
    }
}

/// The key that is part of the hash while Black is to move.
pub open spec fn side_key() -> u64 {
    spec_mix(1000)
}

/// The key of a set of castling rights.
pub open spec fn castle_key(rights: CastleRight) -> u64 {
    spec_mix((2000 + rights.0) as u64)
}

/// The key of the file of an en-passant square: nothing without one.
pub open spec fn en_passant_key(square: Square) -> u64 {
    if square.is_valid() {
        spec_mix((3000 + file_of(square.index())) as u64)
    } else {
        0
    }
}

/// The keys of the first `n` squares, folded together.
pub open spec fn placement_key(squares: Seq<Option<Man>>, n: int) -> u64
    decreases n,
{
    if n <= 0 {
        0
    } else {
        placement_key(squares, n - 1) ^ square_key(squares[n - 1], n - 1)
    }
}

/// The key of everything but the placement.
pub open spec fn state_key(white_to_move: bool, rights: CastleRight, en_passant: Square) -> u64 {
    (if white_to_move {
        0u64
    } else {
        side_key()
    }) ^ castle_key(rights) ^ en_passant_key(en_passant)
}

pub proof fn lemma_xor_swap(p: u64, k: u64, a: u64, b: u64)
    by (bit_vector)
    ensures
        ((p ^ a) ^ b) ^ k == ((p ^ k) ^ a) ^ b,
        (p ^ a) ^ a == p,
        p ^ 0 == p,
        0 ^ p == p,
{
}

/// Changing what one square shows changes the folded key by the key of
/// what it showed and the key of what it shows now.
pub proof fn lemma_placement_key_update(squares: Seq<Option<Man>>, s: int, man: Option<Man>, n: int)
    requires
        0 <= s < squares.len(),
        0 <= n <= squares.len(),
    ensures
        placement_key(squares.update(s, man), n) == (if s < n {
            (placement_key(squares, n) ^ square_key(squares[s], s)) ^ square_key(man, s)
        } else {
            placement_key(squares, n)
        }),
    decreases n,
{
    if n > 0 {
        lemma_placement_key_update(squares, s, man, n - 1);
        let p = placement_key(squares, n - 1);
        if s < n - 1 {
            lemma_xor_swap(p, square_key(squares[n - 1], n - 1), square_key(squares[s], s), square_key(man, s));
        } else if s == n - 1 {
            lemma_xor_swap(p, square_key(squares[s], s), square_key(squares[s], s), square_key(man, s));
            lemma_xor_swap(p, square_key(man, s), 0, 0);
        }
    }
}

impl ZobristKey {
    pub fn new() -> (r: ZobristKey)
        ensures
            r.0 == 0,
    {
        ZobristKey(0)
    }

    pub fn get_raw(&self) -> (r: u64)
        ensures
            r == self.0,
    {
        self.0
    }

    /// Adds or removes the feature "this man stands on this square".
    pub fn update_piece_hash(&mut self, white: bool, piece: Piece, square: Square)
        requires
            square.is_valid(),
        ensures
            final(self).0 == old(self).0 ^ piece_key(white, piece, square.index()),
    {
        let base: u64 = if white {
            0
        } else {
            6
        };
        let seed: u64 = 1 + (base + piece.get_index() as u64) * 64 + square.get_raw() as u64;
        self.0 = self.0 ^ mix(seed);
    }

    /// Adds or removes the feature "Black is to move".
    pub fn update_side_to_move_hash(&mut self)
        ensures
            final(self).0 == old(self).0 ^ side_key(),
    {
        self.0 = self.0 ^ mix(1000);
    }

    /// Adds or removes the feature "these castling rights are held".
    pub fn update_castle_rights_hash(&mut self, rights: CastleRight)
        ensures
            final(self).0 == old(self).0 ^ castle_key(rights),
    {
        self.0 = self.0 ^ mix(2000 + rights.get_value() as u64);
    }

    /// Adds or removes the feature "a pawn may be taken en passant on this
    /// file"; the null square changes nothing.
    pub fn update_en_passant_hash(&mut self, square: Square)
        ensures
            final(self).0 == old(self).0 ^ en_passant_key(square),
    {
        if !square.is_null() {
            self.0 = self.0 ^ mix(3000 + square.get_file() as u64);
        } else {
            proof {
                lemma_xor_swap(self.0, 0, 0, 0);
            }
        }
    }
}

} // verus!
