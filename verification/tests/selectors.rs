use maze_search::frontier::Frontier;
use maze_search::{Coord, MazeState, SearchError};

fn start() -> MazeState {
    MazeState::new(vec![vec![0, 5], vec![3, 9]], Coord { y: 0, x: 0 }, 2).unwrap()
}

fn single_cell() -> MazeState {
    MazeState::new(vec![vec![1]], Coord { y: 0, x: 0 }, 3).unwrap()
}

fn finished() -> MazeState {
    let mut state = start();
    state.advance(0);
    state.advance(2);
    state
}

fn ranked(score: i64, mark: usize) -> MazeState {
    let mut state = MazeState::new(vec![vec![0, score]], Coord { y: 0, x: 0 }, mark + 2).unwrap();
    state.advance(0);
    state.evaluate_score();
    state
}

#[test]
fn scenario_legal_actions() {
    assert_eq!(start().legal_actions(), vec![0, 2]);
}

#[test]
fn scenario_greedy_goes_right() {
    assert_eq!(start().greedy_action(), Ok(0));
}

#[test]
fn scenario_beam_width_one_depth_two_goes_right() {
    assert_eq!(start().beam_search_action(1, 2), Ok(0));
}

#[test]
fn greedy_takes_first_of_equal_scores() {
    let board = vec![vec![0, 4, 0], vec![4, 0, 4], vec![0, 4, 0]];
    let state = MazeState::new(board, Coord { y: 1, x: 1 }, 3).unwrap();
    assert_eq!(state.greedy_action(), Ok(0));
    let board = vec![vec![0, 4, 0], vec![4, 0, 1], vec![0, 4, 0]];
    let state = MazeState::new(board, Coord { y: 1, x: 1 }, 3).unwrap();
    assert_eq!(state.greedy_action(), Ok(1));
    let board = vec![vec![0, 0, 0], vec![0, 0, 0], vec![0, 0, 0]];
    let state = MazeState::new(board, Coord { y: 2, x: 2 }, 3).unwrap();
    assert_eq!(state.greedy_action(), Ok(1));
}

#[test]
fn greedy_takes_the_highest_neighbour() {
    let board = vec![vec![0, 1, 0], vec![2, 0, 3], vec![0, 8, 0]];
    let state = MazeState::new(board, Coord { y: 1, x: 1 }, 3).unwrap();
    assert_eq!(state.greedy_action(), Ok(2));
    let board = vec![vec![0, 9, 0], vec![2, 0, 3], vec![0, 8, 0]];
    let state = MazeState::new(board, Coord { y: 1, x: 1 }, 3).unwrap();
    assert_eq!(state.greedy_action(), Ok(3));
}

#[test]
fn greedy_is_never_beaten_by_another_legal_move() {
    let boards = [
        vec![vec![3, 1, 4, 1], vec![5, 9, 2, 6], vec![5, 3, 5, 8]],
        vec![vec![2, 7, 1, 8], vec![2, 8, 1, 8], vec![2, 8, 4, 5]],
    ];
    for board in boards {
        for y in 0..3 {
            for x in 0..4 {
                let state = MazeState::new(board.clone(), Coord { y, x }, 4).unwrap();
                let chosen = state.greedy_action().unwrap();
                let best = state.successor(chosen).evaluated_score();
                for action in state.legal_actions() {
                    let score = state.successor(action).evaluated_score();
                    assert!(score <= best);
                    if action < chosen {
                        assert!(score < best);
                    }
                }
            }
        }
    }
}

#[test]
fn greedy_refuses_finished_game() {
    assert_eq!(finished().greedy_action(), Err(SearchError::GameOver));
}

#[test]
fn greedy_refuses_single_cell() {
    assert_eq!(single_cell().greedy_action(), Err(SearchError::NoLegalActions));
}

#[test]
fn beam_refuses_zero_width_and_zero_depth() {
    assert_eq!(start().beam_search_action(0, 2), Err(SearchError::InvalidParameters));
    assert_eq!(start().beam_search_action(2, 0), Err(SearchError::InvalidParameters));
    assert_eq!(start().beam_search_action(0, 0), Err(SearchError::InvalidParameters));
    assert_eq!(finished().beam_search_action(0, 1), Err(SearchError::InvalidParameters));
    assert_eq!(single_cell().beam_search_action(1, 0), Err(SearchError::InvalidParameters));
}

#[test]
fn beam_refuses_finished_game() {
    assert_eq!(finished().beam_search_action(2, 2), Err(SearchError::GameOver));
}

#[test]
fn beam_refuses_single_cell() {
    assert_eq!(single_cell().beam_search_action(2, 2), Err(SearchError::NoLegalActions));
}

#[test]
fn beam_looks_further_than_greedy() {
    let board = vec![vec![0, 2, 0], vec![1, 0, 0], vec![9, 0, 0]];
    let state = MazeState::new(board, Coord { y: 0, x: 0 }, 2).unwrap();
    assert_eq!(state.greedy_action(), Ok(0));
    assert_eq!(state.beam_search_action(2, 2), Ok(2));
    assert_eq!(state.beam_search_action(2, 1), Ok(0));
}

#[test]
fn beam_of_width_one_follows_the_best_parent_only() {
    let board = vec![vec![0, 2, 0], vec![1, 0, 0], vec![9, 0, 0]];
    let state = MazeState::new(board, Coord { y: 0, x: 0 }, 2).unwrap();
    assert_eq!(state.beam_search_action(1, 2), Ok(0));
}

#[test]
fn beam_stops_at_the_end_of_the_game() {
    let board = vec![vec![0, 2, 0], vec![1, 0, 0], vec![9, 0, 0]];
    let state = MazeState::new(board, Coord { y: 0, x: 0 }, 2).unwrap();
    assert_eq!(state.beam_search_action(2, 2), state.beam_search_action(2, 50));
    assert_eq!(state.beam_search_action(4, usize::MAX), Ok(2));
}

#[test]
fn beam_breaks_ties_by_order_of_arrival() {
    let board = vec![vec![0, 1, 5], vec![1, 5, 0]];
    let state = MazeState::new(board, Coord { y: 0, x: 0 }, 2).unwrap();
    assert_eq!(state.beam_search_action(2, 2), Ok(0));
    let board = vec![vec![0, 1, 4], vec![1, 5, 0]];
    let state = MazeState::new(board, Coord { y: 0, x: 0 }, 2).unwrap();
    assert_eq!(state.beam_search_action(2, 2), Ok(0));
    let board = vec![vec![0, 1, 4], vec![1, 0, 0], vec![5, 0, 0]];
    let state = MazeState::new(board, Coord { y: 0, x: 0 }, 2).unwrap();
    assert_eq!(state.beam_search_action(2, 2), Ok(2));
}

#[test]
fn beam_of_depth_one_is_greedy() {
    let boards = [
        vec![vec![3, 1, 4, 1], vec![5, 9, 2, 6], vec![5, 3, 5, 8]],
        vec![vec![0, 0, 0, 0], vec![0, 0, 0, 0], vec![0, 0, 0, 0]],
        vec![vec![2, 2, 2, 2], vec![2, 2, 2, 2], vec![2, 2, 2, 2]],
    ];
    for board in boards {
        for y in 0..3 {
            for x in 0..4 {
                let state = MazeState::new(board.clone(), Coord { y, x }, 4).unwrap();
                for width in [1, 2, 4, 9] {
                    assert_eq!(state.beam_search_action(width, 1), state.greedy_action());
                }
            }
        }
    }
    assert_eq!(finished().beam_search_action(4, 1), finished().greedy_action());
    assert_eq!(single_cell().beam_search_action(4, 1), single_cell().greedy_action());
}

#[test]
fn selectors_give_the_same_move_on_equal_states() {
    let board = vec![vec![3, 1, 4, 1], vec![5, 9, 2, 6], vec![5, 3, 5, 8]];
    let first = MazeState::new(board.clone(), Coord { y: 1, x: 2 }, 4).unwrap();
    let second = MazeState::new(board, Coord { y: 1, x: 2 }, 4).unwrap();
    assert_eq!(first.greedy_action(), second.greedy_action());
    assert_eq!(first.greedy_action(), first.greedy_action());
    for (width, depth) in [(1, 1), (1, 4), (2, 4), (3, 2), (8, 8)] {
        assert_eq!(
            first.beam_search_action(width, depth),
            second.beam_search_action(width, depth)
        );
        assert_eq!(
            first.beam_search_action(width, depth),
            first.beam_search_action(width, depth)
        );
    }
}

#[test]
fn selectors_ignore_what_a_search_wrote_on_the_state() {
    let board = vec![vec![0, 5, 0, 3], vec![6, 0, 2, 0], vec![1, 7, 0, 4]];
    let root = MazeState::new(board, Coord { y: 0, x: 0 }, 5).unwrap();
    let mut plain = root.clone();
    plain.advance(0);
    let ranked = root.successor(0);
    assert_eq!(plain.evaluated_score(), 0);
    assert_eq!(ranked.evaluated_score(), 5);
    assert_eq!(plain.game_score(), ranked.game_score());
    assert_eq!(plain.points(), ranked.points());
    assert_eq!(plain.character(), ranked.character());
    assert_eq!(plain.turn(), ranked.turn());
    assert_eq!(plain.greedy_action(), ranked.greedy_action());
    for (width, depth) in [(1, 1), (1, 3), (2, 2), (2, 4), (5, 9)] {
        assert_eq!(
            plain.beam_search_action(width, depth),
            ranked.beam_search_action(width, depth)
        );
    }
}

#[test]
fn selectors_leave_the_state_as_it_was() {
    let state = start();
    let _ = state.greedy_action();
    let _ = state.beam_search_action(2, 2);
    let _ = state.random_action();
    assert_eq!(state, start());
}

#[test]
fn frontier_gives_highest_score_first() {
    let mut frontier = Frontier::new();
    assert!(frontier.is_empty());
    assert!(frontier.peek().is_none());
    assert!(frontier.pop().is_none());
    for score in [3, 8, 1, 5] {
        frontier.push(ranked(score, 0));
    }
    assert_eq!(frontier.len(), 4);
    assert_eq!(frontier.peek().unwrap().evaluated_score(), 8);
    assert_eq!(frontier.len(), 4);
    let mut order = Vec::new();
    while let Some(state) = frontier.pop() {
        order.push(state.evaluated_score());
    }
    assert_eq!(order, vec![8, 5, 3, 1]);
    assert!(frontier.is_empty());
}

#[test]
fn frontier_gives_equal_scores_in_order_of_arrival() {
    let mut frontier = Frontier::new();
    for (score, mark) in [(2, 0), (7, 1), (7, 2), (2, 3), (7, 4)] {
        frontier.push(ranked(score, mark));
    }
    assert_eq!(frontier.peek().unwrap().end_turn(), 3);
    let mut order = Vec::new();
    while let Some(state) = frontier.pop() {
        order.push((state.evaluated_score(), state.end_turn() - 2));
    }
    assert_eq!(order, vec![(7, 1), (7, 2), (7, 4), (2, 0), (2, 3)]);
}
