//! One game: the board, the score and the flag for the threshold tile.
//!
//! The game does not read keys nor draw. Whoever runs it asks at the start of
//! each turn what to tell the player, hands over the command that the player
//! gave, and is told what to do next.

use vstd::prelude::*;

verus! {

use crate::board::Board;
use crate::grid::{empty_grid, slid, slide_gain, spawned, terminal, with_new_tile};
use crate::grid_lemmas::lemma_full_means_no_free_cell;
use crate::input::Command;
use crate::laws::{law_settled_grid_stays, law_stuck_grid_is_settled, law_terminal_means_stuck};
use crate::playable::{lemma_playable_is_bounded, playable};
use crate::tile::THRESHOLD;
use crate::weight::total;
use crate::worth::{lemma_empty_is_worthless, lemma_playable_worth_is_bounded, worth};

/// What a game is at one moment.
pub struct Position {
    /// The grid on the board.
    pub grid: Seq<nat>,
    /// The sum of what the moves have earned.
    pub score: nat,
    /// Whether the threshold tile has been announced.
    pub reached: bool,
}

/// What to tell the player at the start of a turn.
#[derive(Clone, Copy, Debug, PartialEq, Eq, Structural)]
pub enum Prompt {
    /// Nothing new: the game goes on.
    Play,
    /// The threshold tile is on the board for the first time.
    Won,
    /// The threshold tile was announced before, and the game goes on.
    KeepPlaying,
    /// No move is left: the game is over.
    Lost,
}

/// What the panel beside the board shows.
#[derive(Clone, Copy, Debug, PartialEq, Eq, Structural)]
pub enum Panel {
    /// How to play.
    Help,
    /// That the threshold tile is there.
    Won,
    /// That the game is over.
    Lost,
}

/// What to do after a command.
#[derive(Clone, Copy, Debug, PartialEq, Eq, Structural)]
pub enum Reply {
    /// The turn was played: show the board and the score.
    Redraw,
    /// Start a new game.
    Restart,
    /// Leave.
    Quit,
    /// Nothing.
    Ignore,
}

/// One game of 2048.
#[derive(Clone, Copy, Debug)]
pub struct Game {
    board: Board,
    score: u32,
    reached: bool,
}

impl View for Game {
    type V = Position;

    closed spec fn view(&self) -> Position {
        Position { grid: self.board@, score: self.score as nat, reached: self.reached }
    }
}

/// What the player is told at the start of a turn in `p`.
pub open spec fn prompt_at(p: Position) -> Prompt {
    if terminal(p.grid) {
        Prompt::Lost
    } else if p.reached {
        Prompt::KeepPlaying
    } else if p.grid.contains(THRESHOLD as nat) {
        Prompt::Won
    } else {
        Prompt::Play
    }
}

/// The panel to show at a prompt, if the panel is to change: the news of the
/// threshold tile when it is announced, the help again from the turn after
/// that on, and the news of the loss when the game is over.
pub open spec fn panel_at(prompt: Prompt) -> Option<Panel> {
    match prompt {
        Prompt::Play => None,
        Prompt::Won => Some(Panel::Won),
        Prompt::KeepPlaying => Some(Panel::Help),
        Prompt::Lost => Some(Panel::Lost),
    }
}

/// The position after the start of a turn in `p`: the threshold tile, if the
/// player was told of it, counts as announced.
pub open spec fn prompted(p: Position) -> Position {
    Position { reached: p.reached || prompt_at(p) == Prompt::Won, ..p }
}

/// The position after the move that `command` asks for, before the new tile.
pub open spec fn moved(p: Position, command: Command) -> Position {
    match command {
        Command::Slide(dir) => Position {
            grid: slid(p.grid, dir),
            score: p.score + slide_gain(p.grid, dir),
            ..p
        },
        _ => p,
    }
}

/// What to do after `command` during play.
pub open spec fn reply_to(command: Command) -> Reply {
    match command {
        Command::Quit => Reply::Quit,
        Command::Retry => Reply::Restart,
        _ => Reply::Redraw,
    }
}

/// What to do after `command` once the game is over.
pub open spec fn reply_when_over(command: Command) -> Reply {
    match command {
        Command::Quit => Reply::Quit,
        Command::Retry => Reply::Restart,
        _ => Reply::Ignore,
    }
}

/// The position after the turn that `command` asks for, with the new tile
/// chosen by `slot` and `roll`. Every command but the two that end the game
/// is a turn, and brings a new tile, whether or not it moved anything.
pub open spec fn played(p: Position, command: Command, slot: nat, roll: nat) -> Position {
    if reply_to(command) == Reply::Redraw {
        Position { grid: with_new_tile(moved(p, command).grid, slot, roll), ..moved(p, command) }
    } else {
        p
    }
}

/// One turn of a game: the command, and the choice of the new tile.
pub struct Turn {
    /// What the player asked for.
    pub command: Command,
    /// The number of the empty cell that gets the new tile.
    pub slot: nat,
    /// The roll that chooses between a 2 and a 4.
    pub roll: nat,
}

/// The position after the turns `turns`, each with its start, played from `p`.
pub open spec fn replayed(p: Position, turns: Seq<Turn>) -> Position
    decreases turns.len(),
{
    if turns.len() == 0 {
        p
    } else {
        let turn = turns.last();
        played(prompted(replayed(p, turns.drop_last())), turn.command, turn.slot, turn.roll)
    }
}

/// What the moves of the turns `turns`, played from `p`, earn together.
pub open spec fn earned_over(p: Position, turns: Seq<Turn>) -> nat
    decreases turns.len(),
{
    if turns.len() == 0 {
        0
    } else {
        let before = replayed(p, turns.drop_last());
        earned_over(p, turns.drop_last()) + (match turns.last().command {
            Command::Slide(dir) => slide_gain(before.grid, dir),
            _ => 0,
        })
    }
}

/// What a turn earns is what its move earns: the sum of the tiles that the move merges.
pub proof fn law_turn_earns_what_the_move_earns(p: Position, turn: Turn)
    ensures
        played(p, turn.command, turn.slot, turn.roll).score - p.score == (match turn.command {
            Command::Slide(dir) => slide_gain(p.grid, dir),
            _ => 0,
        }),
{
}

/// The score is the sum of what the moves have earned since the game began,
/// and is never less than it was.
pub proof fn law_score_is_the_sum_of_the_gains(p: Position, turns: Seq<Turn>)
    ensures
        replayed(p, turns).score == p.score + earned_over(p, turns),
        replayed(p, turns).score >= p.score,
        p.reached ==> replayed(p, turns).reached,
    decreases turns.len(),
{
    if turns.len() > 0 {
        law_score_is_the_sum_of_the_gains(p, turns.drop_last());
    }
}

/// A game that is over stays as it is, whatever is played: no move changes
/// its grid or earns anything, and no cell is empty for a new tile.
pub proof fn law_lost_game_stays(p: Position, command: Command, slot: nat, roll: nat)
    requires
        p.grid.len() == 16,
        terminal(p.grid),
    ensures
        played(p, command, slot, roll) == p,
{
    law_terminal_means_stuck(p.grid);
    lemma_full_means_no_free_cell(p.grid);
    match command {
        Command::Slide(dir) => {
            law_stuck_grid_is_settled(p.grid, dir);
            law_settled_grid_stays(p.grid, dir);
        },
        _ => {},
    }
}

/// The score never falls, and the flag for the threshold tile is never cleared.
pub proof fn law_score_and_flag_only_rise(p: Position, command: Command, slot: nat, roll: nat)
    ensures
        played(p, command, slot, roll).score >= p.score,
        prompted(p).score == p.score,
        p.reached ==> played(p, command, slot, roll).reached && prompted(p).reached,
{
}

/// The flag for the threshold tile is set exactly when the player is told of
/// it, which happens once: when the tile is on the board, the game is not
/// over and the flag is not set yet.
pub proof fn law_threshold_is_announced_once(p: Position)
    ensures
        prompt_at(p) == Prompt::Won <==> !p.reached && !terminal(p.grid) && p.grid.contains(
            THRESHOLD as nat,
        ),
        prompt_at(p) == Prompt::Won ==> prompt_at(prompted(p)) == Prompt::KeepPlaying,
        prompted(p).reached == (p.reached || prompt_at(p) == Prompt::Won),
{
}

/// The panel to show at `prompt`, if the panel is to change.
pub fn panel_for(prompt: Prompt) -> (panel: Option<Panel>)
    ensures
        panel == panel_at(prompt),
{
    match prompt {
        Prompt::Play => None,
        Prompt::Won => Some(Panel::Won),
        Prompt::KeepPlaying => Some(Panel::Help),
        Prompt::Lost => Some(Panel::Lost),
    }
}

impl Game {
    /// The invariant of the type, which every game meets at all times: the
    /// board is playable, and the score is at most what the tiles on the
    /// board are worth.
    #[verifier::type_invariant]
    pub open spec fn wf(&self) -> bool {
        &&& playable(self@.grid)
        &&& self@.score <= worth(self@.grid)
    }

    /// In a well-formed game the sum of the tiles and the score are far below
    /// the limits of their types.
    pub proof fn law_game_is_bounded(&self)
        requires
            self.wf(),
        ensures
            total(self@.grid) <= 2097152,
            self@.score <= 33554432,
    {
        lemma_playable_is_bounded(self@.grid);
        lemma_playable_worth_is_bounded(self@.grid);
    }

    /// A new game, whose first two tiles are chosen by the two pairs of a slot and a roll.
    pub fn start_with(first: (usize, u8), second: (usize, u8)) -> (game: Game)
        ensures
            game@ == (Position {
                grid: with_new_tile(
                    with_new_tile(empty_grid(), first.0 as nat, first.1 as nat),
                    second.0 as nat,
                    second.1 as nat,
                ),
                score: 0,
                reached: false,
            }),
            game.wf(),
    {
        let mut board = Board::new();
        proof {
            lemma_empty_is_worthless();
        }
        board.spawn_at(first.0, first.1);
        board.spawn_at(second.0, second.1);
        Game { board, score: 0, reached: false }
    }

    /// A new game: an empty board with two tiles at random, no score, and the
    /// threshold tile not announced.
    pub fn new() -> (game: Game)
        ensures
            exists|one: Seq<nat>| spawned(empty_grid(), one) && spawned(one, game@.grid),
            game@.score == 0,
            !game@.reached,
            game.wf(),
    {
        let mut board = Board::new();
        proof {
            lemma_empty_is_worthless();
        }
        board.spawn();
        let ghost one = board@;
        board.spawn();
        proof {
            assert(spawned(empty_grid(), one) && spawned(one, board@));
        }
        Game { board, score: 0, reached: false }
    }

    /// The game with the given board, score and flag, if it is well formed:
    /// if the board is playable and its tiles are worth the score.
    pub fn from_parts(board: Board, score: u32, reached: bool) -> (game: Option<Game>)
        ensures
            game is Some <==> playable(board@) && score <= worth(board@),
            game is Some ==> game.unwrap()@ == (Position {
                grid: board@,
                score: score as nat,
                reached,
            }),
            game is Some ==> game.unwrap().wf(),
    {
        if board.is_playable() && score as i64 <= board.tile_worth() {
            Some(Game { board, score, reached })
        } else {
            None
        }
    }

    /// The board. It is playable, so any move can be made on it.
    pub fn board(&self) -> (board: Board)
        ensures
            board@ == self@.grid,
            board.playable(),
            board.in_range(),
    {
        proof {
            use_type_invariant(self);
            lemma_playable_is_bounded(self@.grid);
        }
        self.board
    }

    /// The score: the sum of what the moves of this game have earned.
    pub fn score(&self) -> (score: u32)
        ensures
            score == self@.score,
    {
        self.score
    }

    /// Tells whether the threshold tile has been announced.
    pub fn reached(&self) -> (reached: bool)
        ensures
            reached == self@.reached,
    {
        self.reached
    }

    /// Starts a turn: tells whether the game is over and, if it is not, what
    /// to tell the player. The first time the threshold tile is found on the
    /// board, that is announced and remembered.
    pub fn begin_turn(&mut self) -> (prompt: Prompt)
        ensures
            prompt == prompt_at(old(self)@),
            final(self)@ == prompted(old(self)@),
            final(self).wf(),
    {
        proof {
            use_type_invariant(&*self);
            lemma_playable_is_bounded(self@.grid);
        }
        if self.board.is_terminal() {
            Prompt::Lost
        } else if self.reached {
            Prompt::KeepPlaying
        } else if self.board.has_reached_threshold() {
            self.reached = true;
            Prompt::Won
        } else {
            Prompt::Play
        }
    }

    /// Makes the move that `command` asks for, if it asks for one, and adds
    /// to the score what the move earns.
    fn make_move(&mut self, command: Command)
        ensures
            final(self)@ == moved(old(self)@, command),
            final(self).wf(),
    {
        proof {
            use_type_invariant(&*self);
            lemma_playable_is_bounded(self@.grid);
            lemma_playable_worth_is_bounded(self@.grid);
        }
        match command {
            Command::Slide(dir) => {
                let mut board = self.board;
                let earned = board.slide(dir);
                proof {
                    lemma_playable_worth_is_bounded(board@);
                }
                self.board = board;
                self.score = self.score + earned;
            },
            _ => {},
        }
    }

    /// Plays the turn that `command` asks for, with the new tile chosen by
    /// `slot` and `roll`: see [`Board::spawn_at`]. The two commands that end
    /// the game change nothing.
    pub fn play_with(&mut self, command: Command, slot: usize, roll: u8) -> (reply: Reply)
        ensures
            reply == reply_to(command),
            final(self)@ == played(old(self)@, command, slot as nat, roll as nat),
            final(self).wf(),
    {
        proof {
            use_type_invariant(&*self);
        }
        match command {
            Command::Quit => Reply::Quit,
            Command::Retry => Reply::Restart,
            _ => {
                self.make_move(command);
                let mut board = self.board;
                proof {
                    use_type_invariant(&*self);
                }
                board.spawn_at(slot, roll);
                self.board = board;
                Reply::Redraw
            },
        }
    }

    /// Plays the turn that `command` asks for: the move, if it asks for one,
    /// and then a new tile at random, whether or not anything moved. The two
    /// commands that end the game change nothing.
    pub fn play(&mut self, command: Command) -> (reply: Reply)
        ensures
            reply == reply_to(command),
            reply != Reply::Redraw ==> final(self)@ == old(self)@,
            reply == Reply::Redraw ==> {
                &&& spawned(moved(old(self)@, command).grid, final(self)@.grid)
                &&& final(self)@.score == moved(old(self)@, command).score
                &&& final(self)@.reached == old(self)@.reached
            },
            final(self)@.score >= old(self)@.score,
            final(self).wf(),
    {
        proof {
            use_type_invariant(&*self);
        }
        match command {
            Command::Quit => Reply::Quit,
            Command::Retry => Reply::Restart,
            _ => {
                self.make_move(command);
                let mut board = self.board;
                proof {
                    use_type_invariant(&*self);
                }
                board.spawn();
                self.board = board;
                Reply::Redraw
            },
        }
    }

    /// What to do after `command` once the game is over: only the commands to
    /// retry and to quit still count.
    pub fn after_loss(command: Command) -> (reply: Reply)
        ensures
            reply == reply_when_over(command),
    {
        match command {
            Command::Quit => Reply::Quit,
            Command::Retry => Reply::Restart,
            _ => Reply::Ignore,
        }
    }
}

} // verus!
