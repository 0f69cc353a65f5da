use vstd::prelude::*;

verus! {

/// Dimensions and mine count the player has typed in for a custom game.
pub struct CustomBoard {
    pub width: usize,
    pub height: usize,
    pub mines: usize,
}

impl Default for CustomBoard {
    fn default() -> (r: Self)
        ensures
            r.width == 10,
            r.height == 10,
            r.mines == 10,
    {
        CustomBoard { width: 10, height: 10, mines: 10 }
    }
}

/// Whether a custom game may start: both dimensions at least 3 and at least
/// one safe cell left.
pub fn validate_input(width: usize, height: usize, mines: usize) -> (r: bool)
    ensures
        r == (width >= 3 && height >= 3 && mines < width * height),
{
    if width < 3 || height < 3 {
        return false;
    }
    match width.checked_mul(height) {
        Some(cells) => mines < cells,
        None => true,
    }
}

/// The English word for a count of adjacent mines; "zero" past eight.
pub open spec fn word_of(num: u8) -> Seq<char> {
    if num == 1 {
        "one"@
    } else if num == 2 {
        "two"@
    } else if num == 3 {
        "three"@
    } else if num == 4 {
        "four"@
    } else if num == 5 {
        "five"@
    } else if num == 6 {
        "six"@
    } else if num == 7 {
        "seven"@
    } else if num == 8 {
        "eight"@
    } else {
        "zero"@
    }
}

/// The word for `num`, which names the image of a revealed cell.
pub fn num_to_word(num: u8) -> (r: String)
    ensures
        r@ == word_of(num),
{
    let word = match num {
        1 => "one",
        2 => "two",
        3 => "three",
        4 => "four",
        5 => "five",
        6 => "six",
        7 => "seven",
        8 => "eight",
        _ => "zero",
    };
    word.to_owned()
}

/// The colour, as red, green and blue, that tints the image named `name`:
/// a gradient from green to blue over the counts, yellow for a flag, red for
/// a mine and black for anything else.
pub open spec fn tint_of(name: Seq<char>) -> (u8, u8, u8) {
    if name == "zero"@ {
        (0, 255, 0)
    } else if name == "one"@ {
        (0, 186, 45)
    } else if name == "two"@ {
        (0, 127, 90)
    } else if name == "three"@ {
        (0, 68, 135)
    } else if name == "four"@ {
        (0, 9, 180)
    } else if name == "five"@ {
        (45, 0, 135)
    } else if name == "six"@ {
        (90, 0, 90)
    } else if name == "seven"@ {
        (135, 0, 45)
    } else if name == "eight"@ {
        (180, 0, 0)
    } else if name == "flag"@ {
        (255, 255, 0)
    } else if name == "mine"@ {
        (255, 0, 0)
    } else {
        (0, 0, 0)
    }
}

/// The tint of the image named `val`.
pub fn get_tint(val: String) -> (r: (u8, u8, u8))
    ensures
        r == tint_of(val@),
{
    if val == "zero".to_owned() {
        (0, 255, 0)
    } else if val == "one".to_owned() {
        (0, 186, 45)
    } else if val == "two".to_owned() {
        (0, 127, 90)
    } else if val == "three".to_owned() {
        (0, 68, 135)
    } else if val == "four".to_owned() {
        (0, 9, 180)
    } else if val == "five".to_owned() {
        (45, 0, 135)
    } else if val == "six".to_owned() {
        (90, 0, 90)
    } else if val == "seven".to_owned() {
        (135, 0, 45)
    } else if val == "eight".to_owned() {
        (180, 0, 0)
    } else if val == "flag".to_owned() {
        (255, 255, 0)
    } else if val == "mine".to_owned() {
        (255, 0, 0)
    } else {
        (0, 0, 0)
    }
}

} // verus!
