use maze_search::generate::{END_TURN, H, POINT_BOUND, W};
use maze_search::play::{beam_score_total, SCORE_BOUND};
use maze_search::{Coord, MazeState, SearchError};

#[test]
fn from_seed_gives_a_board_of_the_fixed_shape() {
    for seed in 0..50 {
        let state = MazeState::from_seed(seed);
        assert_eq!(state.points().len(), H);
        for row in state.points() {
            assert_eq!(row.len(), W);
            for value in row {
                assert!(0 <= *value && *value < POINT_BOUND);
            }
        }
        let at = state.character();
        assert!(0 <= at.y && (at.y as usize) < H);
        assert!(0 <= at.x && (at.x as usize) < W);
        assert_eq!(state.points()[at.y as usize][at.x as usize], 0);
        assert_eq!(state.turn(), 0);
        assert_eq!(state.end_turn(), END_TURN);
        assert_eq!(state.game_score(), 0);
        assert_eq!(state.evaluated_score(), 0);
        assert_eq!(state.first_action(), None);
        assert!(!state.is_done());
    }
}

#[test]
fn from_seed_gives_the_same_game_for_the_same_seed() {
    for seed in [0, 1, 2, 121321, u64::MAX] {
        assert_eq!(MazeState::from_seed(seed), MazeState::from_seed(seed));
    }
}

#[test]
fn from_seed_gives_different_games() {
    let first = MazeState::from_seed(0);
    assert!((1..20).any(|seed| MazeState::from_seed(seed) != first));
}

#[test]
fn from_draws_lays_values_out_around_the_start() {
    let draws = vec![1, 2, 3, 4, 5, 6, 7, 8, 9, 0, 1];
    let state = MazeState::from_draws(1, 2, &draws).unwrap();
    assert_eq!(state.points(), &vec![vec![1, 2, 3, 4], vec![5, 6, 0, 7], vec![8, 9, 0, 1]]);
    assert_eq!(state.character(), Coord { y: 1, x: 2 });
    assert_eq!(state.end_turn(), END_TURN);
    assert_eq!(state.turn(), 0);
    assert_eq!(state.game_score(), 0);
    let state = MazeState::from_draws(0, 0, &draws).unwrap();
    assert_eq!(state.points(), &vec![vec![0, 1, 2, 3], vec![4, 5, 6, 7], vec![8, 9, 0, 1]]);
    let state = MazeState::from_draws(2, 3, &draws).unwrap();
    assert_eq!(state.points(), &vec![vec![1, 2, 3, 4], vec![5, 6, 7, 8], vec![9, 0, 1, 0]]);
}

#[test]
fn from_draws_refuses_what_no_seed_gives() {
    let draws = vec![1, 2, 3, 4, 5, 6, 7, 8, 9, 0, 1];
    assert!(MazeState::from_draws(3, 0, &draws).is_none());
    assert!(MazeState::from_draws(0, 4, &draws).is_none());
    assert!(MazeState::from_draws(0, 0, &draws[..10].to_vec()).is_none());
    assert!(MazeState::from_draws(0, 0, &vec![1; 12]).is_none());
    assert!(MazeState::from_draws(0, 0, &vec![]).is_none());
    let mut high = draws.clone();
    high[10] = 10;
    assert!(MazeState::from_draws(0, 0, &high).is_none());
    let mut low = draws.clone();
    low[0] = -1;
    assert!(MazeState::from_draws(0, 0, &low).is_none());
}

#[test]
fn from_seed_is_what_its_draws_lay_out() {
    for seed in 0..20 {
        let state = MazeState::from_seed(seed);
        let at = state.character();
        let mut draws = Vec::new();
        for (j, row) in state.points().iter().enumerate() {
            for (i, value) in row.iter().enumerate() {
                if (j as i64, i as i64) != (at.y, at.x) {
                    draws.push(*value);
                }
            }
        }
        assert_eq!(MazeState::from_draws(at.y as usize, at.x as usize, &draws), Some(state));
    }
}

#[test]
fn random_action_is_legal() {
    for seed in 0..30 {
        let state = MazeState::from_seed(seed);
        let action = state.random_action().unwrap();
        assert!(state.legal_actions().contains(&action));
        assert_eq!(state.random_action(), Ok(action));
    }
}

#[test]
fn random_action_refuses_single_cell() {
    let state = MazeState::new(vec![vec![1]], Coord { y: 0, x: 0 }, 3).unwrap();
    assert_eq!(state.random_action(), Err(SearchError::NoLegalActions));
}

#[test]
fn play_beam_reaches_the_end() {
    for seed in 0..20 {
        let mut state = MazeState::from_seed(seed);
        let sum: i64 = state.points().iter().flatten().sum();
        assert_eq!(state.play_beam(2, END_TURN), Ok(()));
        assert!(state.is_done());
        assert_eq!(state.turn(), END_TURN);
        let left: i64 = state.points().iter().flatten().sum();
        assert_eq!(state.game_score(), sum - left);
    }
}

#[test]
fn play_beam_makes_the_moves_that_the_search_chooses() {
    let mut played = MazeState::new(vec![vec![0, 2, 0], vec![1, 0, 0], vec![9, 0, 0]], Coord { y: 0, x: 0 }, 3)
        .unwrap();
    let mut stepped = played.clone();
    assert_eq!(played.play_beam(2, 2), Ok(()));
    while !stepped.is_done() {
        let action = stepped.beam_search_action(2, 2).unwrap();
        stepped.advance(action);
    }
    assert_eq!(played, stepped);
    assert_eq!(played.game_score(), 10);
}

#[test]
fn play_beam_refuses_and_changes_nothing() {
    let start = MazeState::from_seed(7);
    let mut state = start.clone();
    assert_eq!(state.play_beam(0, 3), Err(SearchError::InvalidParameters));
    assert_eq!(state, start);
    assert_eq!(state.play_beam(3, 0), Err(SearchError::InvalidParameters));
    assert_eq!(state, start);
    let cell = MazeState::new(vec![vec![1]], Coord { y: 0, x: 0 }, 3).unwrap();
    let mut state = cell.clone();
    assert_eq!(state.play_beam(2, 2), Err(SearchError::NoLegalActions));
    assert_eq!(state, cell);
}

#[test]
fn play_beam_on_finished_game_does_nothing() {
    let mut state = MazeState::from_seed(3);
    state.play_beam(1, 1).unwrap();
    let end = state.clone();
    assert_eq!(state.play_beam(0, 0), Ok(()));
    assert_eq!(state, end);
}

#[test]
fn beam_score_total_adds_the_final_scores() {
    assert_eq!(beam_score_total(0), 0);
    let mut sum = 0;
    for seed in 0..10 {
        let mut state = MazeState::from_seed(seed);
        state.play_beam(2, END_TURN).unwrap();
        sum += state.game_score();
        assert_eq!(beam_score_total(seed as usize + 1), sum);
    }
    assert!(0 <= sum && sum <= 10 * SCORE_BOUND);
}
