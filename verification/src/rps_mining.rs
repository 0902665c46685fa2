//! Quota-based mining: a population of seeded players repeatedly plays a
//! deterministic rock-paper-scissors game against per-round moves derived
//! from a block seed, until every player has met an escalating win quota.

use crate::digest::{sha256, u32_be, u64_be, u64_from_first8};
use vstd::prelude::*;
use vstd::string::{StrSliceExecFns, StringExecFns, StringSliceAdditionalSpecFns};

verus! {

/// One of the three moves, with the standard cyclic dominance.
#[derive(Debug, Clone, Copy, PartialEq, Eq, Structural)]
pub enum Move {
    Rock,
    Paper,
    Scissors,
}

/// Outcome of adjudicating the player's move against the blockchain's.
#[derive(Debug, Clone, Copy, PartialEq, Eq, Structural)]
pub enum GameResult {
    PlayerWin,
    BlockchainWin,
    Tie,
}

/// The move a seed maps to: seed mod 3, in the fixed order rock, paper,
/// scissors.
pub open spec fn spec_move_from_seed(seed: u64) -> Move {
    if seed % 3 == 0 {
        Move::Rock
    } else if seed % 3 == 1 {
        Move::Paper
    } else {
        Move::Scissors
    }
}

impl Move {
    /// The total adjudication table: each move beats exactly one other and
    /// loses to exactly one other; identical moves tie.
    pub open spec fn spec_beats(self, other: Move) -> GameResult {
        match (self, other) {
            (Move::Rock, Move::Scissors) => GameResult::PlayerWin,
            (Move::Paper, Move::Rock) => GameResult::PlayerWin,
            (Move::Scissors, Move::Paper) => GameResult::PlayerWin,
            (Move::Scissors, Move::Rock) => GameResult::BlockchainWin,
            (Move::Rock, Move::Paper) => GameResult::BlockchainWin,
            (Move::Paper, Move::Scissors) => GameResult::BlockchainWin,
            _ => GameResult::Tie,
        }
    }

    /// Maps a numeric seed to a move by seed mod 3.
    pub fn from_seed(seed: u64) -> (r: Self)
        ensures
            r == spec_move_from_seed(seed),
    {
        let rem = seed % 3;
        if rem == 0 {
            Move::Rock
        } else if rem == 1 {
            Move::Paper
        } else {
            Move::Scissors
        }
    }

    /// Adjudicates this move against the other.
    pub fn beats(&self, other: &Move) -> (r: GameResult)
        ensures
            r == self.spec_beats(*other),
    {
        match (self, other) {
            (Move::Rock, Move::Scissors) => GameResult::PlayerWin,
            (Move::Paper, Move::Rock) => GameResult::PlayerWin,
            (Move::Scissors, Move::Paper) => GameResult::PlayerWin,
            (Move::Scissors, Move::Rock) => GameResult::BlockchainWin,
            (Move::Rock, Move::Paper) => GameResult::BlockchainWin,
            (Move::Paper, Move::Scissors) => GameResult::BlockchainWin,
            _ => GameResult::Tie,
        }
    }
}

/// The per-player seed derived once at creation: the first eight bytes of
/// the hash of the base seed and the player's identity.
pub open spec fn spec_player_seed(base_seed: u64, id: u32) -> u64 {
    u64_from_first8(sha256(u64_be(base_seed) + u32_be(id)))
}

/// The seed of a player's next game: the player seed advanced by the
/// number of games already played.
pub open spec fn attempt_seed(seed: u64, games_played: u32, k: u32) -> u64 {
    seed.wrapping_add(games_played.wrapping_add(k) as u64)
}

/// Whether the player's `k`-th attempt from a games-played count of `g`
/// produces a move that beats the fixed opponent move `m`.
pub open spec fn wins_at(seed: u64, g: u32, m: Move, k: u32) -> bool {
    spec_move_from_seed(attempt_seed(seed, g, k)).spec_beats(m) == GameResult::PlayerWin
}

/// The number of games the player plays to win once against the fixed
/// move `m`: one more than the first winning attempt, and at most four.
pub open spec fn spec_attempts(seed: u64, g: u32, m: Move) -> u32 {
    if wins_at(seed, g, m, 0) {
        1
    } else if wins_at(seed, g, m, 1) {
        2
    } else if wins_at(seed, g, m, 2) {
        3
    } else {
        4
    }
}

/// Shifting an integer down by 2^32 shifts its residue mod 3 down by one,
/// since 2^32 - 1 is divisible by 3.
proof fn lemma_sub_pow32_mod3(x: int)
    ensures
        (x - 0x1_0000_0000) % 3 == (x - 1) % 3,
{
    vstd::arithmetic::div_mod::lemma_mod_multiples_vanish(-0x5555_5555, x - 1, 3);
    assert(3 * (-0x5555_5555) + (x - 1) == x - 0x1_0000_0000);
}

/// Shifting an integer down by 2^64 shifts its residue mod 3 down by one,
/// since 2^64 - 1 is divisible by 3.
proof fn lemma_sub_pow64_mod3(x: int)
    ensures
        (x - 0x1_0000_0000_0000_0000) % 3 == (x - 1) % 3,
{
    vstd::arithmetic::div_mod::lemma_mod_multiples_vanish(
        -0x5555_5555_5555_5555,
        x - 1,
        3,
    );
    assert(3 * (-0x5555_5555_5555_5555) + (x - 1) == x - 0x1_0000_0000_0000_0000);
}

/// Among any three consecutive integers, one has any given residue mod 3.
proof fn lemma_three_consecutive(x: int, t: int)
    requires
        0 <= t < 3,
    ensures
        (x % 3 == t) || ((x + 1) % 3 == t) || ((x + 2) % 3 == t),
{
    vstd::arithmetic::div_mod::lemma_mod_bound(x, 3);
    vstd::arithmetic::div_mod::lemma_add_mod_noop(x, 1, 3);
    vstd::arithmetic::div_mod::lemma_add_mod_noop(x, 2, 3);
}

/// Four offsets that start at `x0`, never decrease, step by at most one,
/// and span at least two in total pass through three consecutive integers,
/// so shifted by any base they cover every residue mod 3.
proof fn lemma_cover(b: int, t: int, x0: int, x1: int, x2: int, x3: int)
    requires
        0 <= t < 3,
        x1 == x0 || x1 == x0 + 1,
        x2 == x1 || x2 == x1 + 1,
        x3 == x2 || x3 == x2 + 1,
        x3 >= x0 + 2,
    ensures
        ((b + x0) % 3 == t) || ((b + x1) % 3 == t) || ((b + x2) % 3 == t) || ((b + x3) % 3
            == t),
{
    lemma_three_consecutive(b + x0, t);
}

/// Within any four consecutive attempts the player's move cycle contains
/// the move that beats the fixed opponent move, so one of them wins.
pub proof fn lemma_attempt_win_exists(seed: u64, g: u32, m: Move)
    ensures
        exists|k: u32| k < 4 && wins_at(seed, g, m, k),
{
    let t: int = match m {
        Move::Rock => 1,
        Move::Paper => 2,
        Move::Scissors => 0,
    };
    let w32: int = 0x1_0000_0000;
    let w64: int = 0x1_0000_0000_0000_0000;
    let s = seed as int;
    let gg = g as int;
    let b = s + gg;
    // the games-played cursor after k attempts, with its 32-bit wrap
    let v0: int = gg;
    let v1: int = if gg + 1 < w32 {
        gg + 1
    } else {
        gg + 1 - w32
    };
    let v2: int = if gg + 2 < w32 {
        gg + 2
    } else {
        gg + 2 - w32
    };
    let v3: int = if gg + 3 < w32 {
        gg + 3
    } else {
        gg + 3 - w32
    };
    // the attempt seed, with its 64-bit wrap
    let u0: int = if s + v0 < w64 {
        s + v0
    } else {
        s + v0 - w64
    };
    let u1: int = if s + v1 < w64 {
        s + v1
    } else {
        s + v1 - w64
    };
    let u2: int = if s + v2 < w64 {
        s + v2
    } else {
        s + v2 - w64
    };
    let u3: int = if s + v3 < w64 {
        s + v3
    } else {
        s + v3 - w64
    };
    // total number of wraps behind each attempt seed
    let f0: int = if s + v0 < w64 {
        0
    } else {
        1
    };
    let f1: int = (if gg + 1 < w32 {
        0int
    } else {
        1
    }) + (if s + v1 < w64 {
        0int
    } else {
        1
    });
    let f2: int = (if gg + 2 < w32 {
        0int
    } else {
        1
    }) + (if s + v2 < w64 {
        0int
    } else {
        1
    });
    let f3: int = (if gg + 3 < w32 {
        0int
    } else {
        1
    }) + (if s + v3 < w64 {
        0int
    } else {
        1
    });
    // each wrap subtracts a multiple of three plus one, so each attempt
    // seed's residue is its unwrapped value's residue shifted by the wraps
    assert(u0 % 3 == (b - f0) % 3) by {
        if s + v0 >= w64 {
            lemma_sub_pow64_mod3(b);
        }
    }
    assert(u1 % 3 == (b + 1 - f1) % 3) by {
        if gg + 1 < w32 {
            if s + v1 >= w64 {
                lemma_sub_pow64_mod3(b + 1);
            }
        } else {
            if s + v1 >= w64 {
                lemma_sub_pow64_mod3(b + 1 - w32);
                lemma_sub_pow32_mod3(b + 1 - 1);
            } else {
                lemma_sub_pow32_mod3(b + 1);
            }
        }
    }
    assert(u2 % 3 == (b + 2 - f2) % 3) by {
        if gg + 2 < w32 {
            if s + v2 >= w64 {
                lemma_sub_pow64_mod3(b + 2);
            }
        } else {
            if s + v2 >= w64 {
                lemma_sub_pow64_mod3(b + 2 - w32);
                lemma_sub_pow32_mod3(b + 2 - 1);
            } else {
                lemma_sub_pow32_mod3(b + 2);
            }
        }
    }
    assert(u3 % 3 == (b + 3 - f3) % 3) by {
        if gg + 3 < w32 {
            if s + v3 >= w64 {
                lemma_sub_pow64_mod3(b + 3);
            }
        } else {
            if s + v3 >= w64 {
                lemma_sub_pow64_mod3(b + 3 - w32);
                lemma_sub_pow32_mod3(b + 3 - 1);
            } else {
                lemma_sub_pow32_mod3(b + 3);
            }
        }
    }
    // the wrap count never decreases and rises by at most one per step
    assert(f1 == f0 || f1 == f0 + 1);
    assert(f2 == f1 || f2 == f1 + 1);
    assert(f3 == f2 || f3 == f2 + 1);
    // at most one wrap event occurs across the four attempts: a late
    // 64-bit wrap after a 32-bit wrap would force the seed so high that
    // the very first attempt had already wrapped
    assert(f3 <= f0 + 1) by {
        if f0 == 0 && f3 == 2 {
            assert(gg + 3 >= w32);
            assert(s + v3 >= w64);
            assert(s + v0 >= w64);
        }
    }
    lemma_cover(b, t, 0 - f0, 1 - f1, 2 - f2, 3 - f3);
    // identify each attempt seed with its wrapped integer value
    assert(attempt_seed(seed, g, 0) == u0);
    assert(attempt_seed(seed, g, 1) == u1);
    assert(attempt_seed(seed, g, 2) == u2);
    assert(attempt_seed(seed, g, 3) == u3);
    if u0 % 3 == t {
        assert(wins_at(seed, g, m, 0));
    } else if u1 % 3 == t {
        assert(wins_at(seed, g, m, 1));
    } else if u2 % 3 == t {
        assert(wins_at(seed, g, m, 2));
    } else {
        assert(u3 % 3 == t);
        assert(wins_at(seed, g, m, 3));
    }
}

/// The attempt count is between one and four, its last attempt wins, and
/// every earlier attempt loses or ties.
pub proof fn lemma_attempts_bound(seed: u64, g: u32, m: Move)
    ensures
        1 <= spec_attempts(seed, g, m) <= 4,
        wins_at(seed, g, m, (spec_attempts(seed, g, m) - 1) as u32),
        forall|j: u32| j < spec_attempts(seed, g, m) - 1 ==> !wins_at(seed, g, m, j),
{
    lemma_attempt_win_exists(seed, g, m);
    assert forall|j: u32| j < spec_attempts(seed, g, m) - 1 implies !wins_at(seed, g, m, j) by {
        assert(j == 0 || j == 1 || j == 2);
    }
}

/// A stateful participant: identity, escalating win quota, per-block
/// progress, and a lifetime-fixed seed.
#[derive(Debug, Clone, Copy)]
pub struct Player {
    pub id: u32,
    pub required_wins: u32,
    pub current_wins: u32,
    pub games_played: u32,
    pub seed: u64,
}

impl Player {
    /// A fresh player whose seed is derived from the base seed and its
    /// identity and then held fixed for its lifetime.
    pub fn new(id: u32, required_wins: u32, base_seed: u64) -> (r: Self)
        ensures
            r.id == id,
            r.required_wins == required_wins,
            r.current_wins == 0,
            r.games_played == 0,
            r.seed == spec_player_seed(base_seed, id),
    {
        let mut data: Vec<u8> = Vec::new();
        crate::digest::push_u64_be(&mut data, base_seed);
        crate::digest::push_u32_be(&mut data, id);
        proof {
            assert(data@ =~= u64_be(base_seed) + u32_be(id));
        }
        let h = crate::digest::Hash::from_bytes(data.as_slice());
        let seed = h.prefix_u64();
        Self { id, required_wins, current_wins: 0, games_played: 0, seed }
    }

    /// Plays one game against the given move: the player's move is derived
    /// from its seed and games-played cursor, the cursor advances, and a
    /// win increments the win count.
    pub fn play_game(&mut self, blockchain_move: Move) -> (r: GameResult)
        requires
            old(self).games_played < u32::MAX,
            old(self).current_wins < u32::MAX,
        ensures
            r == spec_move_from_seed(attempt_seed(old(self).seed, old(self).games_played, 0))
                .spec_beats(blockchain_move),
            final(self).games_played == old(self).games_played + 1,
            final(self).current_wins == old(self).current_wins + (
            if r == GameResult::PlayerWin {
                1int
            } else {
                0int
            }),
            final(self).id == old(self).id,
            final(self).required_wins == old(self).required_wins,
            final(self).seed == old(self).seed,
    {
        let game_seed = self.seed.wrapping_add(self.games_played as u64);
        let player_move = Move::from_seed(game_seed);
        self.games_played = self.games_played + 1;
        let result = player_move.beats(&blockchain_move);
        if result == GameResult::PlayerWin {
            self.current_wins = self.current_wins + 1;
        }
        result
    }

    /// True iff the player has accumulated its required wins.
    pub fn has_won(&self) -> (r: bool)
        ensures
            r == (self.current_wins >= self.required_wins),
    {
        self.current_wins >= self.required_wins
    }

    /// Zeroes per-block progress; identity, quota and seed are preserved.
    pub fn reset(&mut self)
        ensures
            final(self).current_wins == 0,
            final(self).games_played == 0,
            final(self).id == old(self).id,
            final(self).required_wins == old(self).required_wins,
            final(self).seed == old(self).seed,
    {
        self.current_wins = 0;
        self.games_played = 0;
    }
}

/// Mining configuration: the fixed population size and the blocks-sealed
/// counter that drives the quota-escalation schedule.
#[derive(Debug, Clone)]
pub struct RPSMiningConfig {
    pub total_players: u32,
    pub blocks_mined: u32,
}

/// The quota schedule for a given blocks-sealed count, over the fixed
/// population of 100 players: at zero every quota is one; afterwards
/// `min(blocks, 100)` players at the high end get quota `2 + i / 100`
/// where `i` is the position within that group, so in practice two.
pub open spec fn spec_win_requirements(blocks: u32) -> Seq<u32> {
    if blocks == 0 {
        Seq::new(100, |i: int| 1u32)
    } else {
        let extra: int = if blocks < 100 {
            blocks as int
        } else {
            100
        };
        Seq::new(100, |i: int|
            if i < 100 - extra {
                1u32
            } else {
                (2 + (i - (100 - extra)) / 100) as u32
            })
    }
}

/// Every quota the schedule assigns lies between one and two: the group
/// index never reaches 100, so the escalation term stays zero.
pub proof fn lemma_schedule_bounds(blocks: u32)
    ensures
        spec_win_requirements(blocks).len() == 100,
        forall|i: int| 0 <= i < 100 ==> 1 <= #[trigger] spec_win_requirements(blocks)[i] <= 2,
{
    assert forall|i: int| 0 <= i < 100 implies 1 <= #[trigger] spec_win_requirements(blocks)[i]
        <= 2 by {
        if blocks != 0 {
            let extra: int = if blocks < 100 {
                blocks as int
            } else {
                100
            };
            if i >= 100 - extra {
                assert(0 <= i - (100 - extra) < 100);
                assert((i - (100 - extra)) / 100 == 0);
            }
        }
    }
}

impl RPSMiningConfig {
    /// The starting configuration: 100 players, no blocks sealed.
    pub fn new() -> (r: Self)
        ensures
            r.total_players == 100,
            r.blocks_mined == 0,
    {
        Self { total_players: 100, blocks_mined: 0 }
    }

    /// The per-player win quotas for the current blocks-sealed count.
    #[verifier::loop_isolation(false)]
    pub fn get_win_requirements(&self) -> (r: Vec<u32>)
        ensures
            r@ == spec_win_requirements(self.blocks_mined),
            r@.len() == 100,
    {
        let ghost target = spec_win_requirements(self.blocks_mined);
        let mut requirements: Vec<u32> = Vec::new();
        let blocks = self.blocks_mined;
        if blocks == 0 {
            let mut i: usize = 0;
            while i < 100
                invariant
                    i <= 100,
                    requirements@ == target.take(i as int),
                decreases 100 - i,
            {
                requirements.push(1);
                proof {
                    assert(requirements@ =~= target.take(i + 1));
                }
                i = i + 1;
            }
        } else {
            let extra: u32 = if blocks < 100 {
                blocks
            } else {
                100
            };
            let ones: u32 = 100 - extra;
            let mut i: u32 = 0;
            while i < ones
                invariant
                    i <= ones,
                    requirements@ == target.take(i as int),
                decreases ones - i,
            {
                requirements.push(1);
                proof {
                    assert(requirements@ =~= target.take(i + 1));
                }
                i = i + 1;
            }
            let mut j: u32 = 0;
            while j < extra
                invariant
                    j <= extra,
                    requirements@ == target.take((ones + j) as int),
                decreases extra - j,
            {
                requirements.push(2 + j / 100);
                proof {
                    assert(requirements@ =~= target.take((ones + j + 1) as int));
                }
                j = j + 1;
            }
        }
        proof {
            assert(requirements@ =~= target);
        }
        requirements
    }
}

/// The blockchain's move against a given player in a given round, derived
/// from the block seed, the round number and the player's identity.
pub open spec fn spec_round_move(block_seed: u64, round: u32, id: u32) -> Move {
    spec_move_from_seed(block_seed.wrapping_add(round as u64).wrapping_add(id as u64))
}

/// A player's state after one round: a player that has met its quota sits
/// the round out; any other plays until it wins once, which takes
/// `spec_attempts` games and adds one win.
pub open spec fn spec_round_player(p: Player, block_seed: u64, round: u32) -> Player {
    if p.current_wins >= p.required_wins {
        p
    } else {
        Player {
            current_wins: (p.current_wins + 1) as u32,
            games_played: (p.games_played + spec_attempts(
                p.seed,
                p.games_played,
                spec_round_move(block_seed, round, p.id),
            )) as u32,
            ..p
        }
    }
}

/// The whole roster after one round.
pub open spec fn spec_round(roster: Seq<Player>, block_seed: u64, round: u32) -> Seq<Player> {
    roster.map_values(|p: Player| spec_round_player(p, block_seed, round))
}

/// Whether every player has met its quota.
pub open spec fn all_won(roster: Seq<Player>) -> bool {
    forall|j: int|
        0 <= j < roster.len() ==> (#[trigger] roster[j]).current_wins >= roster[j].required_wins
}

/// The total games-played count across a roster.
pub open spec fn roster_games(roster: Seq<Player>) -> int
    decreases roster.len(),
{
    if roster.len() == 0 {
        0
    } else {
        roster_games(roster.drop_last()) + roster.last().games_played
    }
}

/// A roster whose players have not yet played accounts for zero games.
pub proof fn lemma_roster_games_zero(roster: Seq<Player>)
    requires
        forall|j: int| 0 <= j < roster.len() ==> (#[trigger] roster[j]).games_played == 0,
    ensures
        roster_games(roster) == 0,
    decreases roster.len(),
{
    if roster.len() > 0 {
        lemma_roster_games_zero(roster.drop_last());
    }
}

/// Appending a player adds exactly its games-played count.
proof fn lemma_roster_games_push(roster: Seq<Player>, p: Player)
    ensures
        roster_games(roster.push(p)) == roster_games(roster) + p.games_played,
{
    assert(roster.push(p).drop_last() =~= roster);
}

/// The final roster of a sealing attempt: one round, and a second one if
/// any quota of two is still outstanding.
pub open spec fn spec_mined_roster(roster: Seq<Player>, block_seed: u64) -> Seq<Player> {
    let first = spec_round(roster, block_seed, 1);
    if all_won(first) {
        first
    } else {
        spec_round(first, block_seed, 2)
    }
}

/// The number of rounds a sealing attempt takes.
pub open spec fn spec_mined_rounds(roster: Seq<Player>, block_seed: u64) -> u32 {
    if all_won(spec_round(roster, block_seed, 1)) {
        1
    } else {
        2
    }
}

/// The per-block seed: the hash of the block data, the instance base seed
/// and the cumulative games-played counter.
pub open spec fn spec_block_seed(data: Seq<u8>, base_seed: u64, games_played: u64) -> u64 {
    u64_from_first8(sha256(data + u64_be(base_seed) + u64_be(games_played)))
}

/// A roster of fresh players with quotas of at most two meets every quota
/// within two rounds: each active player gains exactly one win per round.
pub proof fn lemma_two_rounds_complete(roster: Seq<Player>, block_seed: u64)
    requires
        forall|j: int|
            0 <= j < roster.len() ==> (#[trigger] roster[j]).current_wins == 0 && roster[
                j
            ].required_wins <= 2,
    ensures
        all_won(spec_mined_roster(roster, block_seed)),
        spec_mined_rounds(roster, block_seed) <= 2,
{
    let first = spec_round(roster, block_seed, 1);
    if !all_won(first) {
        let second = spec_round(first, block_seed, 2);
        assert forall|j: int| 0 <= j < second.len() implies (#[trigger] second[j]).current_wins
            >= second[j].required_wins by {
            assert(first[j] == spec_round_player(roster[j], block_seed, 1));
            assert(second[j] == spec_round_player(first[j], block_seed, 2));
        }
    }
}

/// Plays one player against a fixed move until it wins the round: losses
/// and ties consume further attempts, and the cycle guarantees a win
/// within four games.
#[verifier::loop_isolation(false)]
fn play_until_win(player: &mut Player, opponent: Move) -> (games: u32)
    requires
        old(player).games_played + 4 <= u32::MAX,
        old(player).current_wins < u32::MAX,
    ensures
        games == spec_attempts(old(player).seed, old(player).games_played, opponent),
        1 <= games <= 4,
        final(player).games_played == old(player).games_played + games,
        final(player).current_wins == old(player).current_wins + 1,
        final(player).id == old(player).id,
        final(player).required_wins == old(player).required_wins,
        final(player).seed == old(player).seed,
{
    let ghost seed0 = player.seed;
    let ghost g0 = player.games_played;
    proof {
        lemma_attempts_bound(seed0, g0, opponent);
    }
    let ghost a = spec_attempts(seed0, g0, opponent);
    let mut played: u32 = 0;
    let mut player_won_round = false;
    while !player_won_round
        invariant
            played <= a,
            player.seed == seed0,
            player.id == old(player).id,
            player.required_wins == old(player).required_wins,
            player.games_played == g0 + played,
            player_won_round <==> played == a,
            !player_won_round ==> player.current_wins == old(player).current_wins,
            player_won_round ==> player.current_wins == old(player).current_wins + 1,
        decreases a - played,
    {
        let ghost before = played;
        let result = player.play_game(opponent);
        proof {
            assert(attempt_seed(seed0, (g0 + before) as u32, 0) == attempt_seed(
                seed0,
                g0,
                before,
            ));
            assert((result == GameResult::PlayerWin) == wins_at(seed0, g0, opponent, before));
        }
        played = played + 1;
        if result == GameResult::PlayerWin {
            player_won_round = true;
        }
        proof {
            if result == GameResult::PlayerWin {
                assert(before == a - 1);
            } else {
                assert(before != a - 1);
            }
        }
    }
    played
}

/// The mining simulation: configuration, live player roster, the
/// instance's immutable base seed, and the cumulative games counter.
#[derive(Debug, Clone)]
pub struct RPSMiner {
    pub config: RPSMiningConfig,
    pub players: Vec<Player>,
    pub blockchain_seed: u64,
    pub games_played: u64,
}

/// Immutable snapshot of a successful sealing attempt.
#[derive(Debug)]
pub struct RPSMiningResult {
    pub success: bool,
    pub rounds: u32,
    pub total_games: u64,
    pub mining_time_ms: u128,
    pub winning_players: Vec<Player>,
    pub final_seed: u64,
}

/// Two sealing snapshots agree on every recorded value.
pub open spec fn results_alike(a: RPSMiningResult, b: RPSMiningResult) -> bool {
    &&& a.success == b.success
    &&& a.rounds == b.rounds
    &&& a.total_games == b.total_games
    &&& a.mining_time_ms == b.mining_time_ms
    &&& a.winning_players@ == b.winning_players@
    &&& a.final_seed == b.final_seed
}

impl Clone for RPSMiningResult {
    /// Cloning preserves every recorded value.
    fn clone(&self) -> (res: Self)
        ensures
            results_alike(res, *self),
    {
        let winning_players = self.winning_players.clone();
        proof {
            assert(winning_players@ =~= self.winning_players@);
        }
        RPSMiningResult {
            success: self.success,
            rounds: self.rounds,
            total_games: self.total_games,
            mining_time_ms: self.mining_time_ms,
            winning_players,
            final_seed: self.final_seed,
        }
    }
}

impl RPSMiner {
    /// Between sealing attempts the roster is settled: 100 players whose
    /// identities index them, whose seeds derive from the base seed, whose
    /// quotas follow the schedule, and whose per-block progress is zero.
    pub open spec fn wf(&self) -> bool {
        &&& self.players@.len() == 100
        &&& forall|j: int|
            0 <= j < 100 ==> {
                let p = #[trigger] self.players@[j];
                &&& p.id == j as u32
                &&& p.seed == spec_player_seed(self.blockchain_seed, j as u32)
                &&& p.required_wins == spec_win_requirements(self.config.blocks_mined)[j]
                &&& p.current_wins == 0
                &&& p.games_played == 0
            }
    }

    /// A miner over a given base seed, with players created from the
    /// configuration's current quota schedule.
    #[verifier::loop_isolation(false)]
    pub fn with_seed(config: RPSMiningConfig, blockchain_seed: u64) -> (r: Self)
        ensures
            r.wf(),
            r.config == config,
            r.blockchain_seed == blockchain_seed,
            r.games_played == 0,
    {
        let win_requirements = config.get_win_requirements();
        let mut players: Vec<Player> = Vec::new();
        let mut i: usize = 0;
        while i < win_requirements.len()
            invariant
                i <= 100,
                players@.len() == i,
                forall|j: int|
                    0 <= j < i ==> {
                        let p = #[trigger] players@[j];
                        &&& p.id == j as u32
                        &&& p.seed == spec_player_seed(blockchain_seed, j as u32)
                        &&& p.required_wins == spec_win_requirements(config.blocks_mined)[j]
                        &&& p.current_wins == 0
                        &&& p.games_played == 0
                    },
            decreases 100 - i,
        {
            players.push(Player::new(i as u32, win_requirements[i], blockchain_seed));
            i = i + 1;
        }
        Self { config, players, blockchain_seed, games_played: 0 }
    }

    /// A miner whose base seed is read from the wall clock at creation.
    pub fn new(config: RPSMiningConfig) -> (r: Self)
        ensures
            r.wf(),
            r.config == config,
            r.games_played == 0,
    {
        let blockchain_seed = crate::clock::now_nanos();
        Self::with_seed(config, blockchain_seed)
    }

    /// Runs one round: every player below quota plays against its derived
    /// move until it wins once. Returns the games played this round and
    /// whether every quota is now met.
    #[verifier::loop_isolation(false)]
    fn play_round(&mut self, block_seed: u64, round: u32) -> (out: (u64, bool))
        requires
            old(self).players@.len() == 100,
            forall|j: int|
                0 <= j < 100 ==> (#[trigger] old(self).players@[j]).games_played + 4
                    <= u32::MAX && old(self).players@[j].current_wins < u32::MAX,
        ensures
            final(self).players@ == spec_round(old(self).players@, block_seed, round),
            final(self).config == old(self).config,
            final(self).blockchain_seed == old(self).blockchain_seed,
            final(self).games_played == old(self).games_played,
            out.0 == roster_games(final(self).players@) - roster_games(old(self).players@),
            0 <= out.0 <= 400,
            out.1 == all_won(final(self).players@),
    {
        let ghost roster0 = self.players@;
        let ghost target = spec_round(roster0, block_seed, round);
        let mut round_games: u64 = 0;
        let mut all_players_won = true;
        let mut p: usize = 0;
        while p < 100
            invariant
                p <= 100,
                self.players@.len() == 100,
                self.config == old(self).config,
                self.blockchain_seed == old(self).blockchain_seed,
                self.games_played == old(self).games_played,
                forall|j: int| 0 <= j < p ==> self.players@[j] == target[j],
                forall|j: int| p <= j < 100 ==> self.players@[j] == roster0[j],
                round_games == roster_games(self.players@.take(p as int)) - roster_games(
                    roster0.take(p as int),
                ),
                round_games <= 4 * p,
                all_players_won == (forall|j: int|
                    0 <= j < p ==> (#[trigger] target[j]).current_wins >= target[
                        j
                    ].required_wins),
            decreases 100 - p,
        {
            let ghost prev = self.players@;
            let pl = self.players[p];
            if pl.current_wins >= pl.required_wins {
                proof {
                    assert(target[p as int] == spec_round_player(roster0[p as int], block_seed, round));
                    assert(self.players@.take(p as int + 1) =~= prev.take(p as int).push(pl));
                    assert(roster0.take(p as int + 1) =~= roster0.take(p as int).push(
                        roster0[p as int],
                    ));
                    lemma_roster_games_push(prev.take(p as int), pl);
                    lemma_roster_games_push(roster0.take(p as int), roster0[p as int]);
                }
            } else {
                let blockchain_move_seed = block_seed.wrapping_add(round as u64).wrapping_add(
                    pl.id as u64,
                );
                let blockchain_move = Move::from_seed(blockchain_move_seed);
                let mut updated = pl;
                let played = play_until_win(&mut updated, blockchain_move);
                self.players.set(p, updated);
                round_games = round_games + played as u64;
                proof {
                    assert(blockchain_move == spec_round_move(block_seed, round, pl.id));
                    assert(updated == spec_round_player(roster0[p as int], block_seed, round));
                    assert(target[p as int] == spec_round_player(roster0[p as int], block_seed, round));
                    assert(self.players@.take(p as int + 1) =~= prev.take(p as int).push(
                        updated,
                    ));
                    assert(roster0.take(p as int + 1) =~= roster0.take(p as int).push(
                        roster0[p as int],
                    ));
                    lemma_roster_games_push(prev.take(p as int), updated);
                    lemma_roster_games_push(roster0.take(p as int), roster0[p as int]);
                }
                if updated.current_wins < updated.required_wins {
                    all_players_won = false;
                }
            }
            proof {
                assert(self.players@[p as int] == target[p as int]);
            }
            p = p + 1;
        }
        proof {
            assert(self.players@ =~= target);
            assert(self.players@.take(100) =~= self.players@);
            assert(roster0.take(100) =~= roster0);
            assert(all_players_won == all_won(self.players@));
        }
        (round_games, all_players_won)
    }

    /// Seals one block: derives the block seed from the block data, the
    /// base seed and the games counter, runs rounds until every quota is
    /// met, snapshots the roster, resets per-block progress and advances
    /// the schedule. The move cycle guarantees completion within two
    /// rounds, far below the ceiling of 1,000,000, so the attempt always
    /// succeeds and the result is a pure function of the starting state
    /// and the block data.
    #[verifier::loop_isolation(false)]
    pub fn mine_block(&mut self, block_data: &str) -> (r: Result<RPSMiningResult, String>)
        requires
            old(self).wf(),
            old(self).games_played + 800 <= u64::MAX,
            old(self).config.blocks_mined < u32::MAX,
        ensures
            r is Ok,
            r matches Ok(res) ==> {
                let bs = spec_block_seed(
                    block_data.spec_bytes(),
                    old(self).blockchain_seed,
                    old(self).games_played,
                );
                let mined = spec_mined_roster(old(self).players@, bs);
                &&& res.success == true
                &&& res.final_seed == bs
                &&& res.rounds == spec_mined_rounds(old(self).players@, bs)
                &&& res.winning_players@ == mined
                &&& res.total_games == roster_games(mined)
                &&& all_won(res.winning_players@)
                &&& final(self).wf()
                &&& final(self).blockchain_seed == old(self).blockchain_seed
                &&& final(self).config.blocks_mined == old(self).config.blocks_mined + 1
                &&& final(self).config.total_players == old(self).config.total_players
                &&& final(self).games_played == old(self).games_played + res.total_games
            },
    {
        let mut data = block_data.as_bytes_vec();
        crate::digest::push_u64_be(&mut data, self.blockchain_seed);
        crate::digest::push_u64_be(&mut data, self.games_played);
        proof {
            assert(data@ =~= block_data.spec_bytes() + u64_be(self.blockchain_seed) + u64_be(
                self.games_played,
            ));
        }
        let h = crate::digest::Hash::from_bytes(data.as_slice());
        let block_seed = h.prefix_u64();
        let ghost roster0 = self.players@;
        proof {
            assert(block_seed == spec_block_seed(
                block_data.spec_bytes(),
                old(self).blockchain_seed,
                old(self).games_played,
            ));
            lemma_schedule_bounds(old(self).config.blocks_mined);
            lemma_two_rounds_complete(roster0, block_seed);
            lemma_roster_games_zero(roster0);
        }
        let mut round: u32 = 0;
        let mut total_games: u64 = 0;
        let start_time = crate::clock::now_millis();
        loop
            invariant
                round <= 1,
                self.config == old(self).config,
                self.blockchain_seed == old(self).blockchain_seed,
                total_games <= 400 * round,
                self.games_played == old(self).games_played + total_games,
                round == 0 ==> self.players@ == roster0 && total_games == 0,
                round == 1 ==> {
                    &&& self.players@ == spec_round(roster0, block_seed, 1)
                    &&& !all_won(self.players@)
                    &&& total_games == roster_games(self.players@)
                },
            decreases 2 - round,
        {
            round = round + 1;
            proof {
                assert forall|j: int|
                    0 <= j < 100 implies (#[trigger] self.players@[j]).games_played + 4
                        <= u32::MAX && self.players@[j].current_wins < u32::MAX by {
                    if round == 2 {
                        assert(self.players@[j] == spec_round_player(
                            roster0[j],
                            block_seed,
                            1,
                        ));
                    }
                }
            }
            let ghost before_round = self.players@;
            let (round_games, won) = self.play_round(block_seed, round);
            total_games = total_games + round_games;
            self.games_played = self.games_played + round_games;
            proof {
                if round == 2 {
                    assert(self.players@ == spec_mined_roster(roster0, block_seed));
                    assert(won);
                }
                if round == 1 && won {
                    assert(self.players@ == spec_mined_roster(roster0, block_seed));
                }
            }
            if won {
                let ghost mined = self.players@;
                let mut winning_players: Vec<Player> = Vec::new();
                let mut i: usize = 0;
                while i < 100
                    invariant
                        i <= 100,
                        self.players@ == mined,
                        mined.len() == 100,
                        winning_players@ == mined.take(i as int),
                    decreases 100 - i,
                {
                    winning_players.push(self.players[i]);
                    proof {
                        assert(winning_players@ =~= mined.take(i + 1));
                    }
                    i = i + 1;
                }
                proof {
                    assert(winning_players@ =~= mined);
                }
                let end_time = crate::clock::now_millis();
                let mining_time = if end_time >= start_time {
                    end_time - start_time
                } else {
                    0
                };
                let result = RPSMiningResult {
                    success: true,
                    rounds: round,
                    total_games,
                    mining_time_ms: mining_time,
                    winning_players,
                    final_seed: block_seed,
                };
                let mut i2: usize = 0;
                while i2 < 100
                    invariant
                        i2 <= 100,
                        self.players@.len() == 100,
                        self.config == old(self).config,
                        self.blockchain_seed == old(self).blockchain_seed,
                        self.games_played == old(self).games_played + total_games,
                        mined.len() == 100,
                        forall|j: int|
                            i2 <= j < 100 ==> #[trigger] self.players@[j] == mined[j],
                        forall|j: int|
                            0 <= j < i2 ==> {
                                let p = #[trigger] self.players@[j];
                                &&& p.id == mined[j].id
                                &&& p.seed == mined[j].seed
                                &&& p.required_wins == mined[j].required_wins
                                &&& p.current_wins == 0
                                &&& p.games_played == 0
                            },
                    decreases 100 - i2,
                {
                    let mut pl = self.players[i2];
                    pl.reset();
                    self.players.set(i2, pl);
                    i2 = i2 + 1;
                }
                self.config.blocks_mined = self.config.blocks_mined + 1;
                let new_requirements = self.config.get_win_requirements();
                let ghost reset_roster = self.players@;
                let mut i3: usize = 0;
                while i3 < 100
                    invariant
                        i3 <= 100,
                        self.players@.len() == 100,
                        self.config.blocks_mined == old(self).config.blocks_mined + 1,
                        self.config.total_players == old(self).config.total_players,
                        self.blockchain_seed == old(self).blockchain_seed,
                        self.games_played == old(self).games_played + total_games,
                        new_requirements@ == spec_win_requirements(self.config.blocks_mined),
                        reset_roster.len() == 100,
                        forall|j: int|
                            i3 <= j < 100 ==> #[trigger] self.players@[j] == reset_roster[j],
                        forall|j: int|
                            0 <= j < i3 ==> {
                                let p = #[trigger] self.players@[j];
                                &&& p.id == reset_roster[j].id
                                &&& p.seed == reset_roster[j].seed
                                &&& p.required_wins == spec_win_requirements(
                                    self.config.blocks_mined,
                                )[j]
                                &&& p.current_wins == reset_roster[j].current_wins
                                &&& p.games_played == reset_roster[j].games_played
                            },
                    decreases 100 - i3,
                {
                    let mut pl = self.players[i3];
                    pl.required_wins = new_requirements[i3];
                    self.players.set(i3, pl);
                    i3 = i3 + 1;
                }
                proof {
                    assert forall|j: int|
                        0 <= j < 100 implies {
                        let p = #[trigger] self.players@[j];
                        &&& p.id == j as u32
                        &&& p.seed == spec_player_seed(self.blockchain_seed, j as u32)
                        &&& p.required_wins == spec_win_requirements(
                            self.config.blocks_mined,
                        )[j]
                        &&& p.current_wins == 0
                        &&& p.games_played == 0
                    } by {
                        assert(mined[j].id == roster0[j].id);
                        assert(mined[j].seed == roster0[j].seed);
                    }
                }
                return Ok(result);
            }
            if round > 1000000 {
                return Err(String::from_str("Mining timeout: too many rounds"));
            }
            proof {
                assert(round == 1);
            }
        }
    }

    /// A read-only view over the current quota schedule: total required
    /// wins and the histogram mapping each quota value to how many players
    /// carry it.
    #[verifier::loop_isolation(false)]
    pub fn get_difficulty_info(&self) -> (r: DifficultyInfo)
        ensures
            r.block_number == self.config.blocks_mined,
            r.total_players == self.config.total_players,
            r.total_required_wins == sum_of(spec_win_requirements(self.config.blocks_mined)),
            distribution_counts(
                r.win_distribution@,
                spec_win_requirements(self.config.blocks_mined),
            ),
    {
        let requirements = self.config.get_win_requirements();
        let ghost reqs = requirements@;
        proof {
            lemma_schedule_bounds(self.config.blocks_mined);
        }
        let mut total_required_wins: u32 = 0;
        let mut i: usize = 0;
        while i < requirements.len()
            invariant
                i <= 100,
                total_required_wins == sum_of(reqs.take(i as int)),
                total_required_wins <= 2 * i,
            decreases 100 - i,
        {
            proof {
                assert(reqs.take(i + 1).drop_last() =~= reqs.take(i as int));
                assert(1 <= reqs[i as int] <= 2);
            }
            total_required_wins = total_required_wins + requirements[i];
            i = i + 1;
        }
        proof {
            assert(reqs.take(100) =~= reqs);
        }
        let mut win_distribution: Vec<(u32, u32)> = Vec::new();
        let mut j: usize = 0;
        while j < requirements.len()
            invariant
                j <= 100,
                distribution_counts(win_distribution@, reqs.take(j as int)),
                forall|x: int|
                    0 <= x < win_distribution@.len() ==> (#[trigger] win_distribution@[x]).1
                        <= j,
            decreases 100 - j,
        {
            let wins = requirements[j];
            let ghost before = win_distribution@;
            let mut found = false;
            let mut at: usize = 0;
            let mut x: usize = 0;
            while x < win_distribution.len() && !found
                invariant
                    x <= win_distribution@.len(),
                    win_distribution@ == before,
                    !found ==> forall|y: int| 0 <= y < x ==> before[y].0 != wins,
                    found ==> at < before.len() && before[at as int].0 == wins,
                decreases win_distribution@.len() - x + (if found {
                    0int
                } else {
                    1
                }),
            {
                if win_distribution[x].0 == wins {
                    found = true;
                    at = x;
                } else {
                    x = x + 1;
                }
            }
            proof {
                lemma_count_push(reqs.take(j as int), reqs[j as int]);
                assert(reqs.take(j + 1).drop_last() =~= reqs.take(j as int));
                assert(reqs.take(j + 1) =~= reqs.take(j as int).push(reqs[j as int]));
            }
            if found {
                let entry = win_distribution[at];
                win_distribution.set(at, (entry.0, entry.1 + 1));
                proof {
                    assert forall|y: int|
                        0 <= y < win_distribution@.len() implies (#[trigger] win_distribution@[
                        y
                    ]).1 == count_of(reqs.take(j + 1), win_distribution@[y].0)
                        && win_distribution@[y].1 >= 1 by {
                        if y != at {
                            assert(win_distribution@[y] == before[y]);
                            assert(before[y].0 != before[at as int].0);
                        }
                        lemma_count_push_other(
                            reqs.take(j as int),
                            reqs[j as int],
                            win_distribution@[y].0,
                        );
                    }
                }
            } else {
                proof {
                    lemma_count_absent(reqs.take(j as int), wins, before);
                }
                win_distribution.push((wins, 1));
                proof {
                    assert forall|y: int|
                        0 <= y < win_distribution@.len() implies (#[trigger] win_distribution@[
                        y
                    ]).1 == count_of(reqs.take(j + 1), win_distribution@[y].0)
                        && win_distribution@[y].1 >= 1 by {
                        lemma_count_push_other(
                            reqs.take(j as int),
                            reqs[j as int],
                            win_distribution@[y].0,
                        );
                    }
                }
            }
            proof {
                assert forall|q: int|
                    0 <= q < j + 1 implies exists|y: int|
                        0 <= y < win_distribution@.len() && (#[trigger] win_distribution@[
                        y
                    ]).0 == #[trigger] reqs.take(j + 1)[q] by {
                    if q < j {
                        let y0 = choose|y: int|
                            0 <= y < before.len() && (#[trigger] before[y]).0 == reqs.take(
                                j as int,
                            )[q];
                        assert(win_distribution@[y0].0 == reqs.take(j + 1)[q]);
                    } else {
                        if found {
                            assert(win_distribution@[at as int].0 == reqs.take(j + 1)[q]);
                        } else {
                            assert(win_distribution@[win_distribution@.len() - 1].0
                                == reqs.take(j + 1)[q]);
                        }
                    }
                }
            }
            j = j + 1;
        }
        proof {
            assert(reqs.take(100) =~= reqs);
        }
        DifficultyInfo {
            block_number: self.config.blocks_mined,
            total_required_wins,
            win_distribution,
            total_players: self.config.total_players,
        }
    }
}

/// The sum of a sequence of quotas.
pub open spec fn sum_of(s: Seq<u32>) -> int
    decreases s.len(),
{
    if s.len() == 0 {
        0
    } else {
        sum_of(s.drop_last()) + s.last()
    }
}

/// How many entries of a sequence equal a given value.
pub open spec fn count_of(s: Seq<u32>, v: u32) -> int
    decreases s.len(),
{
    if s.len() == 0 {
        0
    } else {
        count_of(s.drop_last(), v) + if s.last() == v {
            1int
        } else {
            0
        }
    }
}

/// A histogram correctly summarises a quota sequence when each entry
/// counts its key's occurrences, keys are distinct, and every occurring
/// value has an entry.
pub open spec fn distribution_counts(dist: Seq<(u32, u32)>, reqs: Seq<u32>) -> bool {
    &&& forall|i: int|
        0 <= i < dist.len() ==> (#[trigger] dist[i]).1 == count_of(reqs, dist[i].0) && dist[
            i
        ].1 >= 1
    &&& forall|i: int, j: int| 0 <= i < j < dist.len() ==> dist[i].0 != dist[j].0
    &&& forall|q: int|
        0 <= q < reqs.len() ==> exists|i: int|
            0 <= i < dist.len() && (#[trigger] dist[i]).0 == #[trigger] reqs[q]
}

/// Appending a value raises its own count by one.
proof fn lemma_count_push(s: Seq<u32>, v: u32)
    ensures
        count_of(s.push(v), v) == count_of(s, v) + 1,
{
    assert(s.push(v).drop_last() =~= s);
}

/// Appending a value raises its own count by one and leaves every other
/// count unchanged.
proof fn lemma_count_push_other(s: Seq<u32>, v: u32, q: u32)
    ensures
        count_of(s.push(v), q) == count_of(s, q) + if q == v {
            1int
        } else {
            0
        },
{
    assert(s.push(v).drop_last() =~= s);
}

/// A value with no histogram entry does not occur, so its count is zero.
proof fn lemma_count_absent(s: Seq<u32>, v: u32, dist: Seq<(u32, u32)>)
    requires
        distribution_counts(dist, s),
        forall|y: int| 0 <= y < dist.len() ==> (#[trigger] dist[y]).0 != v,
    ensures
        count_of(s, v) == 0,
{
    assert forall|q: int| 0 <= q < s.len() implies s[q] != v by {
        if s[q] == v {
            let y = choose|i: int| 0 <= i < dist.len() && (#[trigger] dist[i]).0 == s[q];
            assert(dist[y].0 != v);
        }
    }
    lemma_count_not_contained(s, v);
}

/// The count of a value no entry of the sequence equals is zero.
proof fn lemma_count_not_contained(s: Seq<u32>, v: u32)
    requires
        forall|q: int| 0 <= q < s.len() ==> s[q] != v,
    ensures
        count_of(s, v) == 0,
    decreases s.len(),
{
    if s.len() > 0 {
        lemma_count_not_contained(s.drop_last(), v);
    }
}

/// Derived, read-only view over the current quota schedule.
#[derive(Debug, Clone)]
pub struct DifficultyInfo {
    pub block_number: u32,
    pub total_required_wins: u32,
    pub win_distribution: Vec<(u32, u32)>,
    pub total_players: u32,
}

/// The quadratic weight of a quota histogram: the sum of quota squared
/// times player count over its entries.
pub open spec fn weighted_sum(dist: Seq<(u32, u32)>) -> int
    decreases dist.len(),
{
    if dist.len() == 0 {
        0
    } else {
        weighted_sum(dist.drop_last()) + dist.last().0 * dist.last().0 * dist.last().1
    }
}

/// The quadratic weight of any prefix is at most the whole weight, since
/// every term is non-negative.
proof fn lemma_weighted_prefix(dist: Seq<(u32, u32)>, i: int)
    requires
        0 <= i <= dist.len(),
    ensures
        weighted_sum(dist.take(i)) <= weighted_sum(dist),
    decreases dist.len() - i,
{
    if i == dist.len() {
        assert(dist.take(i) =~= dist);
    } else {
        lemma_weighted_prefix(dist, i + 1);
        assert(dist.take(i + 1).drop_last() =~= dist.take(i));
        assert(dist.take(i + 1).last() == dist[i]);
        assert(dist[i].0 * dist[i].0 * dist[i].1 >= 0) by (nonlinear_arith);
    }
}

impl DifficultyInfo {
    /// The quadratic-weighted total of the quota histogram: quota squared
    /// times player count, summed. This is the numerator of the scalar
    /// difficulty score; the denominator is the population size.
    #[verifier::loop_isolation(false)]
    pub fn weighted_win_score(&self) -> (r: u64)
        requires
            weighted_sum(self.win_distribution@) <= u64::MAX,
        ensures
            r == weighted_sum(self.win_distribution@),
    {
        let ghost dist = self.win_distribution@;
        let mut score: u64 = 0;
        let mut i: usize = 0;
        while i < self.win_distribution.len()
            invariant
                i <= dist.len(),
                score == weighted_sum(dist.take(i as int)),
            decreases dist.len() - i,
        {
            let entry = self.win_distribution[i];
            let q = entry.0 as u64;
            let c = entry.1 as u64;
            proof {
                lemma_weighted_prefix(dist, i + 1);
                assert(dist.take(i + 1).drop_last() =~= dist.take(i as int));
                assert(dist.take(i + 1).last() == dist[i as int]);
                assert(q * q <= 0xFFFF_FFFF * 0xFFFF_FFFF) by (nonlinear_arith)
                    requires
                        q <= 0xFFFF_FFFF,
                ;
                assert(weighted_sum(dist.take(i + 1)) == score + q * q * c);
            }
            score = score + q * q * c;
            i = i + 1;
        }
        proof {
            assert(dist.take(dist.len() as int) =~= dist);
        }
        score
    }
}

/// Every entry of a sequence equal to the value makes the count the whole
/// length.
proof fn lemma_count_all_equal(s: Seq<u32>, v: u32)
    requires
        forall|q: int| 0 <= q < s.len() ==> s[q] == v,
    ensures
        count_of(s, v) == s.len(),
    decreases s.len(),
{
    if s.len() > 0 {
        lemma_count_all_equal(s.drop_last(), v);
    }
}

/// Before any block is sealed every quota is one, so the histogram is the
/// single entry (1, 100) and its quadratic weight equals the population:
/// the difficulty score, weight over population, is exactly one.
pub proof fn lemma_initial_difficulty(dist: Seq<(u32, u32)>)
    requires
        distribution_counts(dist, spec_win_requirements(0)),
    ensures
        weighted_sum(dist) == 100,
{
    let reqs = spec_win_requirements(0);
    assert(reqs.len() == 100);
    assert(forall|q: int| 0 <= q < 100 ==> reqs[q] == 1);
    assert forall|i: int| 0 <= i < dist.len() implies (#[trigger] dist[i]).0 == 1 by {
        if dist[i].0 != 1 {
            lemma_count_not_contained(reqs, dist[i].0);
        }
    }
    assert(reqs[0] == 1);
    assert(dist.len() >= 1);
    if dist.len() >= 2 {
        assert(dist[0].0 != dist[1].0);
        assert(false);
    }
    lemma_count_all_equal(reqs, 1);
    assert(dist[0].1 == 100);
    assert(dist.last() == dist[0]);
    assert(dist.drop_last().len() == 0);
    assert(weighted_sum(dist.drop_last()) == 0);
    assert(weighted_sum(dist) == weighted_sum(dist.drop_last()) + dist.last().0 * dist.last().0
        * dist.last().1);
    assert(dist.last().0 * dist.last().0 * dist.last().1 == 100);
}

/// In a sequence that holds ones up to a split point and twos after it,
/// the counts of ones and twos are the split point and the remainder.
proof fn lemma_count_split(s: Seq<u32>, t: int)
    requires
        0 <= t <= s.len(),
        forall|i: int| 0 <= i < t ==> s[i] == 1,
        forall|i: int| t <= i < s.len() ==> s[i] == 2,
    ensures
        count_of(s, 1) == t,
        count_of(s, 2) == s.len() - t,
    decreases s.len(),
{
    if s.len() > 0 {
        if t == s.len() {
            lemma_count_split(s.drop_last(), t - 1);
        } else {
            lemma_count_split(s.drop_last(), t);
        }
    }
}

/// The quota distribution at any point of the schedule: before any block
/// is sealed all 100 players carry quota one; afterwards exactly
/// `min(blocks, 100)` players carry quota two and the rest carry one.
pub proof fn lemma_schedule_distribution(blocks: u32)
    ensures
        blocks == 0 ==> count_of(spec_win_requirements(blocks), 1) == 100,
        blocks >= 1 ==> {
            let extra: int = if blocks < 100 {
                blocks as int
            } else {
                100
            };
            &&& count_of(spec_win_requirements(blocks), 1) == 100 - extra
            &&& count_of(spec_win_requirements(blocks), 2) == extra
        },
{
    let reqs = spec_win_requirements(blocks);
    lemma_schedule_bounds(blocks);
    if blocks == 0 {
        lemma_count_all_equal(reqs, 1);
    } else {
        let extra: int = if blocks < 100 {
            blocks as int
        } else {
            100
        };
        assert forall|i: int| 100 - extra <= i < 100 implies reqs[i] == 2 by {
            assert(0 <= i - (100 - extra) < 100);
            assert((i - (100 - extra)) / 100 == 0);
        }
        lemma_count_split(reqs, 100 - extra);
    }
}

/// Determinism of sealing: two miners with identical starting state given
/// identical block data derive the same block seed and reach the same
/// final roster, hence the same total game count.
pub proof fn lemma_mining_deterministic(m1: RPSMiner, m2: RPSMiner, data: Seq<u8>)
    requires
        m1.players@ == m2.players@,
        m1.blockchain_seed == m2.blockchain_seed,
        m1.games_played == m2.games_played,
    ensures
        spec_block_seed(data, m1.blockchain_seed, m1.games_played) == spec_block_seed(
            data,
            m2.blockchain_seed,
            m2.games_played,
        ),
        spec_mined_roster(
            m1.players@,
            spec_block_seed(data, m1.blockchain_seed, m1.games_played),
        ) == spec_mined_roster(
            m2.players@,
            spec_block_seed(data, m2.blockchain_seed, m2.games_played),
        ),
        roster_games(
            spec_mined_roster(
                m1.players@,
                spec_block_seed(data, m1.blockchain_seed, m1.games_played),
            ),
        ) == roster_games(
            spec_mined_roster(
                m2.players@,
                spec_block_seed(data, m2.blockchain_seed, m2.games_played),
            ),
        ),
{
}

} // verus!
