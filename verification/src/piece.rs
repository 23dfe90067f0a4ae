//! Bit-level encoding of piece type and colour into a single byte per square.
//!
//! Bit 3 (value 8) carries the colour: set for White, clear for Black. The
//! low three bits carry the type, with a fixed non-contiguous numbering in
//! which 6 is reserved and must never occur on a board. Zero denotes an
//! empty square.

use vstd::prelude::*;

verus! {

pub const WHITE: u8 = 0b1000;

pub const BLACK: u8 = 0b0000;

pub const KING: u8 = 0b0001;

pub const QUEEN: u8 = 0b0010;

pub const PAWN: u8 = 0b0011;

pub const ROOK: u8 = 0b0100;

pub const KNIGHT: u8 = 0b0101;

pub const BISHOP: u8 = 0b0111;

/// The colour bit of a piece value below 16, as arithmetic.
pub open spec fn color_of(p: u8) -> u8 {
    if p >= 8 {
        WHITE
    } else {
        BLACK
    }
}

/// The bare type code of a piece value below 16, as arithmetic.
pub open spec fn type_of(p: u8) -> u8 {
    if p >= 8 {
        (p - 8) as u8
    } else {
        p
    }
}

/// The opposite colour.
pub open spec fn other_color(c: u8) -> u8 {
    if c == WHITE {
        BLACK
    } else {
        WHITE
    }
}

/// A byte that encodes an actual piece: a valid type code with either colour.
pub open spec fn is_piece_code(p: u8) -> bool {
    p < 16 && (type_of(p) == KING || type_of(p) == QUEEN || type_of(p) == PAWN || type_of(p)
        == ROOK || type_of(p) == KNIGHT || type_of(p) == BISHOP)
}

/// A byte that may occupy a board square: empty or a valid piece.
pub open spec fn square_ok(p: u8) -> bool {
    p == 0 || is_piece_code(p)
}

/// Strips the colour bit, leaving the bare type code.
pub fn clear_piece_color(piece: u8) -> (r: u8)
    ensures
        r == piece & 0xf7,
        piece < 16 ==> r == type_of(piece),
{
    proof {
        assert(piece < 16 ==> piece & 0xf7 == (if piece >= 8 {
            (piece - 8) as u8
        } else {
            piece
        })) by (bit_vector);
    }
    piece & 0xf7
}

/// The spec-level character for a piece value: a letter per type, uppercase
/// for White, `'_'` for an empty square and `'X'` for an invalid code.
pub open spec fn spec_piece_char(piece: u8) -> char {
    let t = piece & 0xf7;
    if piece & 8 == 8 {
        if t == KING {
            'K'
        } else if t == QUEEN {
            'Q'
        } else if t == PAWN {
            'P'
        } else if t == ROOK {
            'R'
        } else if t == KNIGHT {
            'N'
        } else if t == BISHOP {
            'B'
        } else if t == 0 {
            '_'
        } else {
            'X'
        }
    } else {
        if t == KING {
            'k'
        } else if t == QUEEN {
            'q'
        } else if t == PAWN {
            'p'
        } else if t == ROOK {
            'r'
        } else if t == KNIGHT {
            'n'
        } else if t == BISHOP {
            'b'
        } else if t == 0 {
            '_'
        } else {
            'X'
        }
    }
}

/// The display letter for a piece value, uppercase for White.
pub fn piece_to_char(piece: u8) -> (r: char)
    ensures
        r == spec_piece_char(piece),
{
    let t = clear_piece_color(piece);
    let white = piece & WHITE == WHITE;
    proof {
        assert(piece & 8 == 8 ==> piece >= 8) by (bit_vector);
        assert(piece & 8 != 8 ==> piece < 8 || piece & 0xf7 == piece & 0xf7) by (bit_vector);
    }
    if white {
        if t == KING {
            'K'
        } else if t == QUEEN {
            'Q'
        } else if t == PAWN {
            'P'
        } else if t == ROOK {
            'R'
        } else if t == KNIGHT {
            'N'
        } else if t == BISHOP {
            'B'
        } else if t == 0 {
            '_'
        } else {
            'X'
        }
    } else {
        if t == KING {
            'k'
        } else if t == QUEEN {
            'q'
        } else if t == PAWN {
            'p'
        } else if t == ROOK {
            'r'
        } else if t == KNIGHT {
            'n'
        } else if t == BISHOP {
            'b'
        } else if t == 0 {
            '_'
        } else {
            'X'
        }
    }
}

} // verus!
