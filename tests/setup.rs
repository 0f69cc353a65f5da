use minesweeper::{get_tint, num_to_word, validate_input, weighted_accepts, CustomBoard};

#[test]
fn custom_board_defaults() {
    let c = CustomBoard::default();
    assert_eq!((c.width, c.height, c.mines), (10, 10, 10));
}

#[test]
fn validate_input_bounds() {
    assert!(validate_input(3, 3, 8));
    assert!(!validate_input(3, 3, 9));
    assert!(!validate_input(2, 10, 1));
    assert!(!validate_input(10, 2, 1));
    assert!(validate_input(10, 10, 0));
    assert!(validate_input(usize::MAX, 3, usize::MAX));
}

#[test]
fn words_for_counts() {
    let words = ["zero", "one", "two", "three", "four", "five", "six", "seven", "eight"];
    for (n, w) in words.iter().enumerate() {
        assert_eq!(num_to_word(n as u8), *w);
    }
    assert_eq!(num_to_word(9), "zero");
    assert_eq!(num_to_word(255), "zero");
}

#[test]
fn tints_for_images() {
    assert_eq!(get_tint("zero".to_string()), (0, 255, 0));
    assert_eq!(get_tint("four".to_string()), (0, 9, 180));
    assert_eq!(get_tint("eight".to_string()), (180, 0, 0));
    assert_eq!(get_tint("flag".to_string()), (255, 255, 0));
    assert_eq!(get_tint("mine".to_string()), (255, 0, 0));
    assert_eq!(get_tint("base".to_string()), (0, 0, 0));
}

#[test]
fn weighted_acceptance_threshold() {
    // 3 of 8 neighbours are mines: likelihood 37.5 %, rounded down to 37.
    assert!(weighted_accepts(3, 8, 37));
    assert!(!weighted_accepts(3, 8, 38));
    assert!(weighted_accepts(0, 8, 0));
    assert!(!weighted_accepts(0, 8, 1));
    assert!(weighted_accepts(8, 8, 99));
    assert!(weighted_accepts(1, 3, 33));
    assert!(!weighted_accepts(1, 3, 34));
}
