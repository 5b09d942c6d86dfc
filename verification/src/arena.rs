//! Head-to-head series bookkeeping: Bot A plays Black in even-numbered
//! games and White in odd-numbered ones, and each finished game is credited
//! to the bot that held the winning color.
use vstd::prelude::*;
use crate::board::{Color, GameResult};

verus! {

/// Per-player timing accumulated during a single match.
#[derive(Debug, Clone, Copy, PartialEq, Eq, Structural)]
pub struct MatchTiming {
    pub black_time_ms: u128,
    pub black_moves: u32,
    pub white_time_ms: u128,
    pub white_moves: u32,
}

/// Totals of a series between Bot A and Bot B.
#[derive(Debug, Clone, Copy, PartialEq, Eq, Structural)]
pub struct SeriesStats {
    pub bot_a_wins: u32,
    pub bot_b_wins: u32,
    pub draws: u32,
    pub bot_a_time_ms: u128,
    pub bot_b_time_ms: u128,
    pub bot_a_moves: u32,
    pub bot_b_moves: u32,
}

impl Default for SeriesStats {
    /// The all-zero totals, as `new` gives them.
    fn default() -> (r: Self)
        ensures
            r == (SeriesStats {
                bot_a_wins: 0,
                bot_b_wins: 0,
                draws: 0,
                bot_a_time_ms: 0,
                bot_b_time_ms: 0,
                bot_a_moves: 0,
                bot_b_moves: 0,
            }),
    {
        SeriesStats::new()
    }
}

/// Whether Bot A plays Black in game `game_index` (0-based).
pub open spec fn bot_a_plays_black(game_index: u32) -> bool {
    game_index % 2 == 0
}

/// The game's result is a win for Bot A.
pub open spec fn credits_bot_a(game_index: u32, result: GameResult) -> bool {
    match result {
        GameResult::Winner(Color::Black) => bot_a_plays_black(game_index),
        GameResult::Winner(Color::White) => !bot_a_plays_black(game_index),
        _ => false,
    }
}

/// The game's result is a win for Bot B.
pub open spec fn credits_bot_b(game_index: u32, result: GameResult) -> bool {
    match result {
        GameResult::Winner(Color::Black) => !bot_a_plays_black(game_index),
        GameResult::Winner(Color::White) => bot_a_plays_black(game_index),
        _ => false,
    }
}

/// The totals after crediting one finished game.
pub open spec fn record_game_spec(
    s: SeriesStats,
    game_index: u32,
    result: GameResult,
    timing: MatchTiming,
) -> SeriesStats {
    let a_black = bot_a_plays_black(game_index);
    let a_wins = match result {
        GameResult::Winner(Color::Black) => a_black,
        GameResult::Winner(Color::White) => !a_black,
        _ => false,
    };
    let b_wins = match result {
        GameResult::Winner(Color::Black) => !a_black,
        GameResult::Winner(Color::White) => a_black,
        _ => false,
    };
    let draw = result == GameResult::Draw;
    let (a_time, a_moves, b_time, b_moves) = if a_black {
        (timing.black_time_ms, timing.black_moves, timing.white_time_ms, timing.white_moves)
    } else {
        (timing.white_time_ms, timing.white_moves, timing.black_time_ms, timing.black_moves)
    };
    SeriesStats {
        bot_a_wins: (s.bot_a_wins + if a_wins { 1int } else { 0 }) as u32,
        bot_b_wins: (s.bot_b_wins + if b_wins { 1int } else { 0 }) as u32,
        draws: (s.draws + if draw { 1int } else { 0 }) as u32,
        bot_a_time_ms: (s.bot_a_time_ms + a_time) as u128,
        bot_b_time_ms: (s.bot_b_time_ms + b_time) as u128,
        bot_a_moves: (s.bot_a_moves + a_moves) as u32,
        bot_b_moves: (s.bot_b_moves + b_moves) as u32,
    }
}

/// The number of finished games the totals account for.
pub open spec fn games_recorded(s: SeriesStats) -> int {
    s.bot_a_wins + s.bot_b_wins + s.draws
}

impl SeriesStats {
    /// All-zero totals.
    pub fn new() -> (r: Self)
        ensures
            r == (SeriesStats {
                bot_a_wins: 0,
                bot_b_wins: 0,
                draws: 0,
                bot_a_time_ms: 0,
                bot_b_time_ms: 0,
                bot_a_moves: 0,
                bot_b_moves: 0,
            }),
    {
        SeriesStats {
            bot_a_wins: 0,
            bot_b_wins: 0,
            draws: 0,
            bot_a_time_ms: 0,
            bot_b_time_ms: 0,
            bot_a_moves: 0,
            bot_b_moves: 0,
        }
    }

    /// Credits one finished game: the win goes to the bot that held the
    /// winning color in that game, and each side's moves and time are added
    /// to the bot that played them.
    pub fn record_game(&mut self, game_index: u32, result: GameResult, timing: MatchTiming)
        requires
            result != GameResult::Ongoing,
            credits_bot_a(game_index, result) ==> old(self).bot_a_wins < u32::MAX,
            credits_bot_b(game_index, result) ==> old(self).bot_b_wins < u32::MAX,
            result == GameResult::Draw ==> old(self).draws < u32::MAX,
            old(self).bot_a_time_ms + (if bot_a_plays_black(game_index) {
                timing.black_time_ms
            } else {
                timing.white_time_ms
            }) <= u128::MAX,
            old(self).bot_b_time_ms + (if bot_a_plays_black(game_index) {
                timing.white_time_ms
            } else {
                timing.black_time_ms
            }) <= u128::MAX,
            old(self).bot_a_moves + (if bot_a_plays_black(game_index) {
                timing.black_moves
            } else {
                timing.white_moves
            }) <= u32::MAX,
            old(self).bot_b_moves + (if bot_a_plays_black(game_index) {
                timing.white_moves
            } else {
                timing.black_moves
            }) <= u32::MAX,
        ensures
            *final(self) == record_game_spec(*old(self), game_index, result, timing),
    {
        let a_black = game_index % 2 == 0;
        match result {
            GameResult::Winner(Color::Black) => {
                if a_black {
                    self.bot_a_wins = self.bot_a_wins + 1;
                } else {
                    self.bot_b_wins = self.bot_b_wins + 1;
                }
            },
            GameResult::Winner(Color::White) => {
                if a_black {
                    self.bot_b_wins = self.bot_b_wins + 1;
                } else {
                    self.bot_a_wins = self.bot_a_wins + 1;
                }
            },
            GameResult::Draw => {
                self.draws = self.draws + 1;
            },
            GameResult::Ongoing => {},
        }
        let (a_time, a_moves, b_time, b_moves) = if a_black {
            (timing.black_time_ms, timing.black_moves, timing.white_time_ms, timing.white_moves)
        } else {
            (timing.white_time_ms, timing.white_moves, timing.black_time_ms, timing.black_moves)
        };
        self.bot_a_time_ms = self.bot_a_time_ms + a_time;
        self.bot_a_moves = self.bot_a_moves + a_moves;
        self.bot_b_time_ms = self.bot_b_time_ms + b_time;
        self.bot_b_moves = self.bot_b_moves + b_moves;
    }
}

/// Law: every finished game is counted exactly once, as a win for one bot
/// or as a draw.
pub proof fn law_each_game_counted_once(
    s: SeriesStats,
    game_index: u32,
    result: GameResult,
    timing: MatchTiming,
)
    requires
        result != GameResult::Ongoing,
        s.bot_a_wins < u32::MAX,
        s.bot_b_wins < u32::MAX,
        s.draws < u32::MAX,
    ensures
        games_recorded(record_game_spec(s, game_index, result, timing)) == games_recorded(s) + 1,
{
}

/// Law: colors alternate, so the same winning color in two consecutive games
/// is credited to different bots.
pub proof fn law_alternating_colors(
    s: SeriesStats,
    game_index: u32,
    winner: Color,
    timing: MatchTiming,
)
    requires
        game_index < u32::MAX,
        s.bot_a_wins < u32::MAX,
        s.bot_b_wins < u32::MAX,
    ensures
        (record_game_spec(s, game_index, GameResult::Winner(winner), timing).bot_a_wins
            == s.bot_a_wins + 1) != (record_game_spec(
            s,
            (game_index + 1) as u32,
            GameResult::Winner(winner),
            timing,
        ).bot_a_wins == s.bot_a_wins + 1),
{
}

} // verus!

verus! {

/// Law: a win is credited to the bot that held the winning color in that
/// game (Bot A has Black in even-numbered games and White in odd ones): that
/// bot gains exactly one win, the other bot's wins and the draws stay as
/// they were.
pub proof fn law_win_goes_to_the_bot_with_the_winning_color(
    s: SeriesStats,
    game_index: u32,
    winner: Color,
    timing: MatchTiming,
)
    requires
        s.bot_a_wins < u32::MAX,
        s.bot_b_wins < u32::MAX,
    ensures
        ({
            let t = record_game_spec(s, game_index, GameResult::Winner(winner), timing);
            let a_color = if game_index % 2 == 0 { Color::Black } else { Color::White };
            &&& winner == a_color ==> t.bot_a_wins == s.bot_a_wins + 1 && t.bot_b_wins == s.bot_b_wins
            &&& winner != a_color ==> t.bot_b_wins == s.bot_b_wins + 1 && t.bot_a_wins == s.bot_a_wins
            &&& t.draws == s.draws
        }),
{
}

} // verus!
