use phlopchain::rps_mining::{GameResult, Player, RPSMiner, RPSMiningConfig};

#[test]
fn test_move_generation() {
    let move1 = phlopchain::rps_mining::Move::from_seed(0);
    let move2 = phlopchain::rps_mining::Move::from_seed(1);
    let move3 = phlopchain::rps_mining::Move::from_seed(2);

    assert_eq!(move1, phlopchain::rps_mining::Move::Rock);
    assert_eq!(move2, phlopchain::rps_mining::Move::Paper);
    assert_eq!(move3, phlopchain::rps_mining::Move::Scissors);
}

#[test]
fn test_game_results() {
    let rock = phlopchain::rps_mining::Move::Rock;
    let paper = phlopchain::rps_mining::Move::Paper;
    let scissors = phlopchain::rps_mining::Move::Scissors;
    assert_eq!(rock.beats(&scissors), GameResult::PlayerWin);
    assert_eq!(paper.beats(&rock), GameResult::PlayerWin);
    assert_eq!(scissors.beats(&paper), GameResult::PlayerWin);
    assert_eq!(rock.beats(&rock), GameResult::Tie);
}

#[test]
fn test_player_creation() {
    let player = Player::new(0, 2, 12345);
    assert_eq!(player.id, 0);
    assert_eq!(player.required_wins, 2);
    assert_eq!(player.current_wins, 0);
}

#[test]
fn test_mining_config() {
    let config = RPSMiningConfig::new();
    let requirements = config.get_win_requirements();
    assert_eq!(requirements.len(), 100);
    assert!(requirements.iter().all(|&x| x == 1));
}

#[test]
fn test_difficulty_progression() {
    let mut config = RPSMiningConfig::new();

    let req1 = config.get_win_requirements();
    assert!(req1.iter().all(|&x| x == 1));

    config.blocks_mined = 1;
    let req2 = config.get_win_requirements();
    assert_eq!(req2.iter().filter(|&&x| x == 1).count(), 99);
    assert_eq!(req2.iter().filter(|&&x| x == 2).count(), 1);

    config.blocks_mined = 2;
    let req3 = config.get_win_requirements();
    assert_eq!(req3.iter().filter(|&&x| x == 1).count(), 98);
    assert_eq!(req3.iter().filter(|&&x| x == 2).count(), 2);
}

#[test]
fn test_miner_creation() {
    let config = RPSMiningConfig::new();
    let miner = RPSMiner::new(config);
    assert_eq!(miner.players.len(), 100);
    assert!(miner.players.iter().all(|p| p.required_wins == 1));
}

#[test]
fn test_player_seeds_are_distinct() {
    let a = Player::new(0, 1, 999);
    let b = Player::new(1, 1, 999);
    assert_ne!(a.seed, b.seed);
    let c = Player::new(0, 1, 999);
    assert_eq!(a.seed, c.seed);
}

#[test]
fn test_player_reset_preserves_identity() {
    let mut player = Player::new(3, 2, 42);
    let seed_before = player.seed;
    player.play_game(phlopchain::rps_mining::Move::Rock);
    player.reset();
    assert_eq!(player.current_wins, 0);
    assert_eq!(player.games_played, 0);
    assert_eq!(player.id, 3);
    assert_eq!(player.required_wins, 2);
    assert_eq!(player.seed, seed_before);
}

#[test]
fn test_mining_always_succeeds() {
    let mut miner = RPSMiner::with_seed(RPSMiningConfig::new(), 123456789);
    for round_trip in 0..3u32 {
        let result = miner.mine_block("descriptor").unwrap();
        assert!(result.success);
        assert!(result.rounds <= 2);
        assert_eq!(result.winning_players.len(), 100);
        assert!(result.winning_players.iter().all(|p| p.current_wins >= p.required_wins));
        assert_eq!(miner.config.blocks_mined, round_trip + 1);
        assert!(miner.players.iter().all(|p| p.current_wins == 0 && p.games_played == 0));
    }
}

#[test]
fn test_mining_determinism() {
    let mut m1 = RPSMiner::with_seed(RPSMiningConfig::new(), 424242);
    let mut m2 = RPSMiner::with_seed(RPSMiningConfig::new(), 424242);
    let r1 = m1.mine_block("block descriptor").unwrap();
    let r2 = m2.mine_block("block descriptor").unwrap();
    assert_eq!(r1.total_games, r2.total_games);
    assert_eq!(r1.final_seed, r2.final_seed);

    let mut m3 = RPSMiner::with_seed(RPSMiningConfig::new(), 424243);
    let r3 = m3.mine_block("block descriptor").unwrap();
    assert_ne!(r1.final_seed, r3.final_seed);
}

#[test]
fn test_difficulty_score_at_start() {
    let miner = RPSMiner::with_seed(RPSMiningConfig::new(), 5);
    let info = miner.get_difficulty_info();
    assert_eq!(info.total_required_wins, 100);
    assert_eq!(info.total_players, 100);
    assert_eq!(info.win_distribution, vec![(1, 100)]);
    let score = info.weighted_win_score() as f64 / info.total_players as f64;
    assert_eq!(score, 1.0);
}

#[test]
fn test_difficulty_info_after_sealing() {
    let mut miner = RPSMiner::with_seed(RPSMiningConfig::new(), 5);
    miner.mine_block("descriptor").unwrap();
    let info = miner.get_difficulty_info();
    assert_eq!(info.block_number, 1);
    assert_eq!(info.total_required_wins, 101);
    assert_eq!(info.win_distribution, vec![(1, 99), (2, 1)]);
    assert_eq!(info.weighted_win_score(), 99 + 4);
}
