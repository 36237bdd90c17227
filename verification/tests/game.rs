use game2048::board::Board;
use game2048::game::{panel_for, Game, Panel, Prompt, Reply};
use game2048::grid::Direction;
use game2048::input::Command;

fn board(cells: [u32; 16]) -> Board {
    Board::from_cells(cells).expect("every cell is empty or a tile")
}

fn game(cells: [u32; 16], score: u32, reached: bool) -> Game {
    Game::from_parts(board(cells), score, reached).expect("a position that play can reach")
}

fn tiles_on(board: &Board) -> usize {
    board.cells().iter().filter(|v| **v != 0).count()
}

const NO_MOVE_LEFT: [u32; 16] = [
    2, 4, 8, 16, //
    32, 64, 128, 256, //
    512, 1024, 2048, 4096, //
    8192, 16384, 32768, 65536,
];

#[test]
fn a_new_game_has_two_tiles_and_no_score() {
    for _ in 0..100 {
        let g = Game::new();
        assert_eq!(g.score(), 0);
        assert!(!g.reached());
        assert_eq!(tiles_on(&g.board()), 2);
        assert!(g.board().cells().iter().all(|v| *v == 0 || *v == 2 || *v == 4));
    }
}

#[test]
fn a_game_can_start_from_chosen_tiles() {
    let g = Game::start_with((0, 1), (0, 0));
    assert_eq!(g.board().cells(), [2, 4, 0, 0, 0, 0, 0, 0, 0, 0, 0, 0, 0, 0, 0, 0]);
    assert_eq!(g.score(), 0);
    assert!(!g.reached());

    let g = Game::start_with((15, 0), (14, 5));
    assert_eq!(g.board().cells(), [0, 0, 0, 0, 0, 0, 0, 0, 0, 0, 0, 0, 0, 0, 2, 4]);
}

#[test]
fn a_move_adds_what_it_earns_to_the_score() {
    let mut g = Game::start_with((0, 1), (0, 1));
    assert_eq!(g.board().cells()[..4], [2, 2, 0, 0]);
    assert_eq!(g.play_with(Command::Slide(Direction::Left), 0, 1), Reply::Redraw);
    assert_eq!(g.board().cells()[..4], [4, 2, 0, 0]);
    assert_eq!(g.score(), 4);
    assert_eq!(g.play_with(Command::Slide(Direction::Right), 0, 0), Reply::Redraw);
    assert_eq!(g.board().cells()[..4], [4, 0, 4, 2]);
    assert_eq!(g.score(), 4);
    assert_eq!(g.play_with(Command::Slide(Direction::Left), 20, 0), Reply::Redraw);
    assert_eq!(g.board().cells()[..4], [8, 2, 0, 0]);
    assert_eq!(g.score(), 12);
}

#[test]
fn the_score_never_falls() {
    let mut g = Game::new();
    let mut last = 0;
    let moves = [Direction::Left, Direction::Up, Direction::Right, Direction::Down];
    for turn in 0..400 {
        if g.begin_turn() == Prompt::Lost {
            break;
        }
        g.play(Command::Slide(moves[turn % 4]));
        assert!(g.score() >= last);
        last = g.score();
    }
}

#[test]
fn every_turn_brings_a_new_tile() {
    let start = [2, 0, 0, 0, 4, 0, 0, 0, 8, 0, 0, 0, 16, 0, 0, 0];
    // The move changes nothing, and still a tile appears.
    let mut g = game(start, 0, false);
    assert_eq!(g.play(Command::Slide(Direction::Left)), Reply::Redraw);
    assert_eq!(tiles_on(&g.board()), 5);
    assert_eq!(g.score(), 0);

    // So does a key that asks for nothing.
    let mut g = game(start, 0, false);
    assert_eq!(g.play(Command::NoOp), Reply::Redraw);
    assert_eq!(tiles_on(&g.board()), 5);

    let mut g = game(start, 0, false);
    assert_eq!(g.play_with(Command::NoOp, 2, 0), Reply::Redraw);
    assert_eq!(g.board().cells(), [2, 0, 0, 4, 4, 0, 0, 0, 8, 0, 0, 0, 16, 0, 0, 0]);
}

#[test]
fn retry_and_quit_leave_the_game_alone() {
    let start = [2, 2, 0, 0, 4, 0, 0, 0, 8, 0, 0, 0, 16, 0, 0, 0];
    let mut g = game(start, 24, false);
    assert_eq!(g.play(Command::Quit), Reply::Quit);
    assert_eq!(g.board().cells(), start);
    assert_eq!(g.score(), 24);
    assert_eq!(g.play(Command::Retry), Reply::Restart);
    assert_eq!(g.board().cells(), start);
    assert_eq!(g.play_with(Command::Quit, 0, 0), Reply::Quit);
    assert_eq!(g.play_with(Command::Retry, 0, 0), Reply::Restart);
    assert_eq!(g.board().cells(), start);
    assert_eq!(g.score(), 24);
}

#[test]
fn after_a_loss_only_retry_and_quit_count() {
    assert_eq!(Game::after_loss(Command::Quit), Reply::Quit);
    assert_eq!(Game::after_loss(Command::Retry), Reply::Restart);
    assert_eq!(Game::after_loss(Command::NoOp), Reply::Ignore);
    assert_eq!(Game::after_loss(Command::Slide(Direction::Up)), Reply::Ignore);
}

#[test]
fn the_game_is_lost_when_no_move_is_left() {
    let mut g = game(NO_MOVE_LEFT, 0, true);
    assert_eq!(g.begin_turn(), Prompt::Lost);
    let mut g = game(NO_MOVE_LEFT, 0, false);
    assert_eq!(g.begin_turn(), Prompt::Lost);
    // A lost game does not announce the threshold tile any more.
    assert!(!g.reached());
}

#[test]
fn the_threshold_tile_is_announced_once() {
    let mut cells = [0u32; 16];
    cells[0] = 1024;
    cells[1] = 1024;
    let mut g = game(cells, 0, false);
    assert_eq!(g.begin_turn(), Prompt::Play);
    assert!(!g.reached());
    assert_eq!(g.play_with(Command::Slide(Direction::Left), 0, 1), Reply::Redraw);
    assert_eq!(g.score(), 2048);
    assert_eq!(g.board().cells()[..3], [2048, 2, 0]);
    assert_eq!(g.begin_turn(), Prompt::Won);
    assert!(g.reached());
    assert_eq!(g.play_with(Command::Slide(Direction::Left), 0, 1), Reply::Redraw);
    assert_eq!(g.begin_turn(), Prompt::KeepPlaying);
    assert!(g.reached());
    assert_eq!(g.begin_turn(), Prompt::KeepPlaying);
}

#[test]
fn the_flag_stays_when_the_threshold_tile_is_merged_away() {
    let mut cells = [0u32; 16];
    cells[0] = 2048;
    cells[1] = 2048;
    let mut g = game(cells, 0, false);
    assert_eq!(g.begin_turn(), Prompt::Won);
    g.play_with(Command::Slide(Direction::Left), 0, 1);
    assert!(!g.board().has_reached_threshold());
    assert_eq!(g.begin_turn(), Prompt::KeepPlaying);
    assert!(g.reached());
}

#[test]
fn a_game_is_made_only_of_what_play_can_reach() {
    // Sixteen tiles of 2048 cannot be on the board at once.
    assert!(Game::from_parts(board([2048; 16]), 0, false).is_none());
    assert!(!board([2048; 16]).is_playable());
    // One tile of 2^18 cannot either.
    let mut cells = [0u32; 16];
    cells[5] = 1 << 18;
    assert!(!board(cells).is_playable());
    cells[5] = 1 << 17;
    assert!(board(cells).is_playable());
    // A tile of 8 has earned at most 16.
    cells[5] = 8;
    assert!(Game::from_parts(board(cells), 16, false).is_some());
    assert!(Game::from_parts(board(cells), 17, false).is_none());
    assert!(board(NO_MOVE_LEFT).is_playable());
}

#[test]
fn tiles_are_worth_what_building_them_earns() {
    let mut cells = [0u32; 16];
    assert_eq!(board(cells).tile_worth(), 0);
    cells[0] = 2;
    assert_eq!(board(cells).tile_worth(), 0);
    cells[1] = 4;
    assert_eq!(board(cells).tile_worth(), 4);
    cells[2] = 8;
    assert_eq!(board(cells).tile_worth(), 4 + 16);
    cells[3] = 2048;
    assert_eq!(board(cells).tile_worth(), 4 + 16 + 10 * 2048);
}

#[test]
fn cells_are_counted_by_the_size_of_their_tiles() {
    let b = board(NO_MOVE_LEFT);
    assert_eq!(b.count_reaching(0), 16);
    assert_eq!(b.count_reaching(2), 16);
    assert_eq!(b.count_reaching(3), 15);
    assert_eq!(b.count_reaching(2048), 6);
    assert_eq!(b.count_reaching(65536), 1);
    assert_eq!(b.count_reaching(65537), 0);
}

#[test]
fn a_whole_game_stays_within_its_bounds() {
    let moves = [Direction::Left, Direction::Down, Direction::Right, Direction::Down];
    for _ in 0..20 {
        let mut g = Game::new();
        let mut turn = 0;
        while g.begin_turn() != Prompt::Lost && turn < 5000 {
            let before = g.board();
            let reply = g.play(Command::Slide(moves[turn % 4]));
            assert_eq!(reply, Reply::Redraw);
            assert!(g.board().is_playable());
            assert!(Board::from_cells(g.board().cells()).is_some());
            assert!(g.score() as i64 <= g.board().tile_worth());
            assert!(tiles_on(&g.board()) <= tiles_on(&before) + 1);
            turn += 1;
        }
    }
}

#[test]
fn the_panel_changes_with_the_news() {
    assert_eq!(panel_for(Prompt::Play), None);
    assert_eq!(panel_for(Prompt::Won), Some(Panel::Won));
    assert_eq!(panel_for(Prompt::KeepPlaying), Some(Panel::Help));
    assert_eq!(panel_for(Prompt::Lost), Some(Panel::Lost));
}
