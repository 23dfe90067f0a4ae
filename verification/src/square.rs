//! Naming squares: the file-letter and rank-digit form.

use vstd::prelude::*;

verus! {

/// The file letter of a column: column 0 is `'a'`.
pub open spec fn spec_file_char(c: int) -> char {
    if c == 0 {
        'a'
    } else if c == 1 {
        'b'
    } else if c == 2 {
        'c'
    } else if c == 3 {
        'd'
    } else if c == 4 {
        'e'
    } else if c == 5 {
        'f'
    } else if c == 6 {
        'g'
    } else {
        'h'
    }
}

/// The rank digit of a row: row 0 is the eighth rank.
pub open spec fn spec_rank_char(r: int) -> char {
    if r == 0 {
        '8'
    } else if r == 1 {
        '7'
    } else if r == 2 {
        '6'
    } else if r == 3 {
        '5'
    } else if r == 4 {
        '4'
    } else if r == 5 {
        '3'
    } else if r == 6 {
        '2'
    } else {
        '1'
    }
}

/// The column of a file letter.
pub open spec fn spec_letter_col(letter: char) -> int {
    if letter == 'a' {
        0
    } else if letter == 'b' {
        1
    } else if letter == 'c' {
        2
    } else if letter == 'd' {
        3
    } else if letter == 'e' {
        4
    } else if letter == 'f' {
        5
    } else if letter == 'g' {
        6
    } else {
        7
    }
}

/// Maps a file letter to its column.
pub fn letter_to_col(letter: char) -> (r: usize)
    requires
        letter == 'a' || letter == 'b' || letter == 'c' || letter == 'd' || letter == 'e' || letter
            == 'f' || letter == 'g' || letter == 'h',
    ensures
        r == spec_letter_col(letter),
{
    if letter == 'a' {
        0
    } else if letter == 'b' {
        1
    } else if letter == 'c' {
        2
    } else if letter == 'd' {
        3
    } else if letter == 'e' {
        4
    } else if letter == 'f' {
        5
    } else if letter == 'g' {
        6
    } else {
        7
    }
}

/// Writes a square as its file letter followed by its rank digit, the
/// rank counted from the bottom of the board.
pub fn square_to_alphanumeric(square: (usize, usize)) -> (r: String)
    requires
        square.0 < 8,
        square.1 < 8,
    ensures
        r@ =~= seq![
            spec_file_char(square.1 as int),
            spec_rank_char(square.0 as int),
        ],
{
    let letter: &str = if square.1 == 0 {
        "a"
    } else if square.1 == 1 {
        "b"
    } else if square.1 == 2 {
        "c"
    } else if square.1 == 3 {
        "d"
    } else if square.1 == 4 {
        "e"
    } else if square.1 == 5 {
        "f"
    } else if square.1 == 6 {
        "g"
    } else {
        "h"
    };
    let digit: &str = if square.0 == 0 {
        "8"
    } else if square.0 == 1 {
        "7"
    } else if square.0 == 2 {
        "6"
    } else if square.0 == 3 {
        "5"
    } else if square.0 == 4 {
        "4"
    } else if square.0 == 5 {
        "3"
    } else if square.0 == 6 {
        "2"
    } else {
        "1"
    };
    proof {
        reveal_strlit("a");
        reveal_strlit("b");
        reveal_strlit("c");
        reveal_strlit("d");
        reveal_strlit("e");
        reveal_strlit("f");
        reveal_strlit("g");
        reveal_strlit("h");
        reveal_strlit("1");
        reveal_strlit("2");
        reveal_strlit("3");
        reveal_strlit("4");
        reveal_strlit("5");
        reveal_strlit("6");
        reveal_strlit("7");
        reveal_strlit("8");
    }
    let together = String::from_str(letter).concat(digit);
    together
}

} // verus!
