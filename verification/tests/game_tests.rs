use snake_core::{Direction, GameStatus, World};

fn body_of(w: &World) -> Vec<usize> {
    w.snake_cells().iter().map(|c| c.0).collect()
}

#[test]
fn new_world_spawns_snake_and_reward() {
    let w = World::new(4, 10, Direction::Right, 3, |_m: usize| 0usize);
    assert_eq!(w.width(), 4);
    assert_eq!(w.snake_len(), 3);
    assert_eq!(w.snake_head_idx(), 10);
    assert_eq!(body_of(&w), vec![10, 9, 8]);
    assert_eq!(w.reward_cell(), Some(0));
    assert_eq!(w.status(), GameStatus::Played);
    assert_eq!(w.direction(), Direction::Right);
}

#[test]
fn plain_step_shifts_every_segment() {
    let mut w = World::new(4, 10, Direction::Right, 3, |_m: usize| 0usize);
    w.step(|_m: usize| 0usize);
    // the head advanced one cell; every other segment took the previous
    // position of the segment ahead of it; nothing else changed
    assert_eq!(body_of(&w), vec![11, 10, 9]);
    assert_eq!(w.snake_len(), 3);
    assert_eq!(w.reward_cell(), Some(0));
    assert_eq!(w.status(), GameStatus::Played);
}

#[test]
fn step_wraps_at_row_edge() {
    let mut w = World::new(4, 11, Direction::Right, 2, |_m: usize| 0usize);
    w.step(|_m: usize| 0usize);
    // head 11 is the rightmost cell of row 2: Right wraps to cell 8
    assert_eq!(body_of(&w), vec![8, 11]);
}

#[test]
fn running_into_the_body_loses() {
    // heading Left from cell 10 runs the head straight into the body
    let mut w = World::new(4, 10, Direction::Left, 3, |_m: usize| 0usize);
    w.step(|_m: usize| 0usize);
    assert_eq!(w.status(), GameStatus::Lost);
    assert_eq!(body_of(&w), vec![9, 10, 9]);
}

#[test]
fn lost_world_absorbs_further_steps() {
    let mut w = World::new(4, 10, Direction::Left, 3, |_m: usize| 0usize);
    w.step(|_m: usize| 0usize);
    assert_eq!(w.status(), GameStatus::Lost);
    let body = body_of(&w);
    let reward = w.reward_cell();
    for _ in 0..3 {
        w.step(|_m: usize| 0usize);
        assert_eq!(w.status(), GameStatus::Lost);
        assert_eq!(body_of(&w), body);
        assert_eq!(w.reward_cell(), reward);
    }
}

#[test]
fn eating_the_reward_grows_and_replaces_it() {
    // place the reward exactly on the cell the head moves to next
    let mut w = World::new(4, 10, Direction::Right, 3, |_m: usize| 11usize);
    assert_eq!(w.reward_cell(), Some(11));
    w.step(|_m: usize| 0usize);
    // the body grew by exactly one, duplicating the neck as the new tail
    assert_eq!(w.snake_len(), 4);
    assert_eq!(body_of(&w), vec![11, 10, 9, 10]);
    assert_eq!(w.status(), GameStatus::Played);
    // the new reward is a valid cell off the new body
    let reward = w.reward_cell().unwrap();
    assert!(reward < 16);
    assert!(!body_of(&w).contains(&reward));
    assert_eq!(w.reward_cell(), Some(0));
}

#[test]
fn occupied_draws_fall_back_to_first_free_cell() {
    // the random source stubbornly returns an occupied cell; placement must
    // still terminate with a free one
    let w = World::new(2, 1, Direction::Down, 2, |_m: usize| 1usize);
    assert_eq!(body_of(&w), vec![1, 0]);
    assert_eq!(w.reward_cell(), Some(2));
}

#[test]
fn filling_the_board_wins() {
    // 2x2 board, snake of 2: eat at cell 3, then at cell 2
    let mut w = World::new(2, 1, Direction::Down, 2, |_m: usize| 3usize);
    assert_eq!(w.reward_cell(), Some(3));
    w.step(|_m: usize| 2usize);
    assert_eq!(body_of(&w), vec![3, 1, 1]);
    assert_eq!(w.reward_cell(), Some(2));
    assert_eq!(w.status(), GameStatus::Played);
    w.change_snake_dir(Direction::Left);
    assert_eq!(w.direction(), Direction::Left);
    // the body now has size-1 segments and the head reaches the reward
    w.step(|_m: usize| 0usize);
    assert_eq!(w.status(), GameStatus::Won);
    assert_eq!(w.reward_cell(), None);
    assert_eq!(body_of(&w), vec![2, 3, 1, 3]);
}

#[test]
fn won_world_absorbs_further_steps() {
    let mut w = World::new(2, 1, Direction::Down, 2, |_m: usize| 3usize);
    w.step(|_m: usize| 2usize);
    w.change_snake_dir(Direction::Left);
    w.step(|_m: usize| 0usize);
    assert_eq!(w.status(), GameStatus::Won);
    let body = body_of(&w);
    for _ in 0..3 {
        w.step(|_m: usize| 0usize);
        assert_eq!(w.status(), GameStatus::Won);
        assert_eq!(body_of(&w), body);
        assert_eq!(w.reward_cell(), None);
    }
}

#[test]
fn reversal_is_rejected_and_heading_kept() {
    let mut w = World::new(4, 10, Direction::Right, 3, |_m: usize| 0usize);
    // Left would move the head onto the segment directly behind it
    w.change_snake_dir(Direction::Left);
    assert_eq!(w.direction(), Direction::Right);
    // the rejected change also leaves movement unchanged
    w.step(|_m: usize| 0usize);
    assert_eq!(w.snake_head_idx(), 11);
}

#[test]
fn non_reversal_heading_change_is_applied() {
    let mut w = World::new(4, 10, Direction::Right, 3, |_m: usize| 0usize);
    w.change_snake_dir(Direction::Up);
    assert_eq!(w.direction(), Direction::Up);
    w.step(|_m: usize| 0usize);
    assert_eq!(w.snake_head_idx(), 6);
}

#[test]
fn single_segment_snake_moves() {
    let mut w = World::new(4, 0, Direction::Right, 1, |_m: usize| 2usize);
    assert_eq!(body_of(&w), vec![0]);
    w.step(|_m: usize| 2usize);
    assert_eq!(body_of(&w), vec![1]);
    assert_eq!(w.status(), GameStatus::Played);
}

#[test]
fn body_extends_backward_from_spawn() {
    // Snake::new must build without panicking; its body is only readable
    // through a world, so check the layout through one built the same way
    let _snake = snake_core::Snake::new(7, Direction::Up, 4);
    let w = World::new(4, 7, Direction::Up, 4, |_m: usize| 0usize);
    assert_eq!(body_of(&w), vec![7, 6, 5, 4]);
}
