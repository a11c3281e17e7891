use reversi::disc::{Place, Player};
use reversi::field::Field;
use reversi::game::{winner, Turn};

fn started() -> Field {
    let mut f = Field::new();
    f.start();
    f
}

fn snapshot(f: &Field) -> Vec<Place> {
    let mut cells = Vec::new();
    for y in 0..8i8 {
        for x in 0..8i8 {
            cells.push(f.at(x, y));
        }
    }
    cells
}

fn count_empty(f: &Field) -> usize {
    snapshot(f).iter().filter(|c| **c == Place::Void).count()
}

#[test]
fn new_board_is_empty() {
    let f = Field::new();
    assert_eq!(count_empty(&f), 64);
    assert_eq!(f.count_of(Player::Black), 0);
    assert_eq!(f.count_of(Player::White), 0);
}

#[test]
fn start_layout_counts() {
    let f = started();
    assert_eq!(f.count_of(Player::Black), 2);
    assert_eq!(f.count_of(Player::White), 2);
    assert_eq!(count_empty(&f), 60);
    assert_eq!(f.at(3, 3), Place::Black);
    assert_eq!(f.at(4, 4), Place::Black);
    assert_eq!(f.at(3, 4), Place::White);
    assert_eq!(f.at(4, 3), Place::White);
}

#[test]
fn start_resets_a_played_board() {
    let mut f = started();
    assert!(f.place(Player::Black, 2, 4));
    f.start();
    assert_eq!(snapshot(&f), snapshot(&started()));
}

#[test]
fn occupied_cells_are_never_legal() {
    let f = started();
    for (x, y) in [(3, 3), (4, 4), (3, 4), (4, 3)] {
        assert!(!f.is_able_to_place(Player::Black, x, y));
        assert!(!f.is_able_to_place(Player::White, x, y));
    }
}

#[test]
fn positions_off_the_board_are_never_legal() {
    let f = started();
    for (x, y) in [(-1, 0), (0, -1), (8, 0), (0, 8), (127, 127), (-128, 3)] {
        assert!(!f.is_able_to_place(Player::Black, x, y));
        assert!(!f.is_able_to_place(Player::White, x, y));
    }
}

#[test]
fn is_in_field_edges() {
    assert!(Field::is_in_field(0, 0));
    assert!(Field::is_in_field(7, 7));
    assert!(Field::is_in_field(0, 7));
    assert!(!Field::is_in_field(-1, 0));
    assert!(!Field::is_in_field(8, 0));
    assert!(!Field::is_in_field(0, 8));
    assert!(!Field::is_in_field(3, -1));
}

#[test]
fn starting_legal_moves_for_black() {
    let f = started();
    let expected = [(2, 4), (3, 5), (4, 2), (5, 3)];
    for x in 0..8i8 {
        for y in 0..8i8 {
            assert_eq!(
                f.is_able_to_place(Player::Black, x, y),
                expected.contains(&(x, y)),
                "cell ({}, {})",
                x,
                y
            );
        }
    }
    assert!(!f.is_able_to_place(Player::Black, 2, 3));
}

#[test]
fn starting_legal_moves_for_white() {
    let f = started();
    let expected = [(2, 3), (3, 2), (4, 5), (5, 4)];
    for x in 0..8i8 {
        for y in 0..8i8 {
            assert_eq!(f.is_able_to_place(Player::White, x, y), expected.contains(&(x, y)));
        }
    }
}

#[test]
fn first_move_flips_one_disc() {
    let mut f = started();
    assert!(f.place(Player::Black, 2, 4));
    assert_eq!(f.at(2, 4), Place::Black);
    assert_eq!(f.at(3, 4), Place::Black);
    assert_eq!(f.at(4, 3), Place::White);
    assert_eq!(f.count_of(Player::Black), 4);
    assert_eq!(f.count_of(Player::White), 1);
    assert_eq!(count_empty(&f), 59);
}

#[test]
fn capture_runs_enemy_then_own() {
    let f = started();
    assert_eq!(f.at(3, 4), Place::White);
    assert_eq!(f.at(4, 4), Place::Black);
    assert!(f.is_able_to_place(Player::Black, 2, 4));
    assert!(!f.is_able_to_place(Player::Black, 1, 4));
}

#[test]
fn rejected_move_changes_nothing() {
    let mut f = started();
    let before = snapshot(&f);
    for _ in 0..3 {
        assert!(!f.place(Player::Black, 2, 3));
        assert!(!f.place(Player::Black, 3, 3));
        assert!(!f.place(Player::White, 0, 0));
        assert!(!f.place(Player::White, 9, 1));
        assert_eq!(snapshot(&f), before);
    }
}

#[test]
fn total_discs_grow_by_one_per_move() {
    let mut f = started();
    let moves = [(2, 4), (4, 5), (5, 4), (2, 3)];
    let mut player = Player::Black;
    for (x, y) in moves {
        let own = f.count_of(player);
        let other = f.count_of(player.enemy());
        assert!(f.place(player, x, y));
        let captured = other - f.count_of(player.enemy());
        assert!(captured >= 1);
        assert_eq!(f.count_of(player), own + 1 + captured);
        assert_eq!(f.count_of(player) + f.count_of(player.enemy()), own + other + 1);
        player = player.enemy();
    }
}

#[test]
fn move_flips_in_several_directions() {
    let mut f = started();
    let moves = [(2, 4), (4, 5), (5, 4), (2, 3), (3, 6), (2, 5), (1, 4), (3, 5)];
    let mut player = Player::Black;
    for (x, y) in moves {
        assert!(f.place(player, x, y));
        player = player.enemy();
    }
    let black = f.count_of(Player::Black);
    let white = f.count_of(Player::White);
    assert!(f.place(Player::Black, 3, 2));
    assert_eq!(f.count_of(Player::White), 0);
    assert_eq!(f.count_of(Player::Black), black + white + 1);
}

#[test]
fn wipeout_ends_the_game() {
    let mut f = started();
    let moves = [(2, 4), (4, 5), (5, 4), (2, 3), (3, 6), (2, 5), (1, 4), (3, 5), (3, 2)];
    let mut player = Player::Black;
    for (x, y) in moves {
        assert!(f.place(player, x, y));
        player = player.enemy();
    }
    assert_eq!(f.count_of(Player::Black), 13);
    assert_eq!(f.count_of(Player::White), 0);
    assert!(!f.is_able_to_place_anywhere(Player::White));
    assert!(!f.is_able_to_place_anywhere(Player::Black));
    assert_eq!(f.next_turn(Player::Black), Turn::End);
    assert_eq!(winner(13, 0), Some(Player::Black));
}

#[test]
fn empty_board_is_a_double_pass() {
    let f = Field::new();
    let before = snapshot(&f);
    assert!(!f.is_able_to_place_anywhere(Player::Black));
    assert!(!f.is_able_to_place_anywhere(Player::White));
    assert_eq!(f.next_turn(Player::Black), Turn::End);
    assert_eq!(f.next_turn(Player::White), Turn::End);
    assert_eq!(snapshot(&f), before);
}

#[test]
fn turn_passes_to_enemy_when_it_can_move() {
    let mut f = started();
    assert!(f.is_able_to_place_anywhere(Player::Black));
    assert!(f.is_able_to_place_anywhere(Player::White));
    assert!(f.place(Player::Black, 2, 4));
    assert_eq!(f.next_turn(Player::Black), Turn::Play(Player::White));
}

#[test]
fn winner_by_counts() {
    assert_eq!(winner(40, 24), Some(Player::Black));
    assert_eq!(winner(24, 40), Some(Player::White));
    assert_eq!(winner(32, 32), None);
    assert_eq!(winner(0, 0), None);
    assert_eq!(winner(1, 0), Some(Player::Black));
}

#[test]
fn player_helpers() {
    assert_eq!(Player::Black.enemy(), Player::White);
    assert_eq!(Player::White.enemy(), Player::Black);
    assert_eq!(Player::Black.place(), Place::Black);
    assert_eq!(Player::White.place(), Place::White);
    assert_eq!(Player::Black.to_str(), "BLACK");
    assert_eq!(Player::White.to_str(), "WHITE");
}

#[test]
fn place_helpers() {
    assert_eq!(Place::Black.opposite(), Place::White);
    assert_eq!(Place::White.opposite(), Place::Black);
    assert_eq!(Place::Void.opposite(), Place::Void);
    assert_eq!(Place::Black.player(), Player::Black);
    assert_eq!(Place::White.player(), Player::White);
    assert_eq!(Place::Black.to_str(), "BLACK");
    assert_eq!(Place::White.to_str(), "WHITE");
    assert_eq!(Place::Void.to_str(), "VOID");
}

#[test]
fn side_without_moves_passes() {
    let mut f = started();
    let moves = [(2, 4), (2, 5), (2, 6), (1, 6), (5, 3), (2, 7), (0, 7), (0, 5)];
    let mut player = Player::Black;
    for (x, y) in moves {
        assert!(f.place(player, x, y));
        player = player.enemy();
    }
    assert!(!f.is_able_to_place_anywhere(Player::Black));
    assert!(f.is_able_to_place_anywhere(Player::White));
    assert_eq!(f.next_turn(Player::White), Turn::Pass(Player::Black));
}
