use rollback_core::input::PlayerInputFrame;
use rollback_core::player::{GameInput, PlayerHandle, SessionError};
use rollback_core::state::{
    load_world, player_movement, replay, save_world, GameState, Position, MOVE_STEP,
};

fn input(bits: u32) -> PlayerInputFrame {
    PlayerInputFrame::from_bits(bits).unwrap()
}

fn both(frame: u32, first: u32, second: u32) -> GameInput {
    GameInput { frame, first: input(first), second: input(second) }
}

#[test]
fn a_new_state_has_both_players_at_the_origin() {
    let s = GameState::new();
    assert_eq!(s.first, Position { x: 0, y: 0 });
    assert_eq!(s.second, Position { x: 0, y: 0 });
}

#[test]
fn each_direction_moves_by_the_step() {
    assert_eq!(MOVE_STEP, 2);
    let p = Position { x: 10, y: 20 };
    assert_eq!(p.advance(PlayerInputFrame::left()), Position { x: 8, y: 20 });
    assert_eq!(p.advance(PlayerInputFrame::right()), Position { x: 12, y: 20 });
    assert_eq!(p.advance(PlayerInputFrame::down()), Position { x: 10, y: 18 });
    assert_eq!(p.advance(PlayerInputFrame::up()), Position { x: 10, y: 22 });
    assert_eq!(p.advance(PlayerInputFrame::empty()), p);
}

#[test]
fn opposite_directions_cancel() {
    let p = Position { x: -3, y: 7 };
    assert_eq!(p.advance(input(12)), p);
    assert_eq!(p.advance(input(3)), p);
    assert_eq!(p.advance(input(15)), p);
    assert_eq!(p.advance(input(13)), Position { x: -3, y: 9 });
}

#[test]
fn a_coordinate_stays_at_the_edge_of_the_grid() {
    let far = Position { x: i32::MAX, y: i32::MIN };
    assert_eq!(far.advance(input(8 | 2)), Position { x: i32::MAX, y: i32::MIN });
    let near = Position { x: i32::MAX - 1, y: i32::MIN + 1 };
    assert_eq!(near.advance(input(8 | 2)), Position { x: i32::MAX, y: i32::MIN });
    assert_eq!(far.advance(input(4 | 1)), Position { x: i32::MAX - 2, y: i32::MIN + 2 });
    assert_eq!(far.advance(input(12)), far);
}

#[test]
fn player_movement_moves_each_player_by_its_own_input() {
    let mut s = GameState::new();
    player_movement(&mut s, &both(0, 4, 1));
    assert_eq!(s.first, Position { x: -2, y: 0 });
    assert_eq!(s.second, Position { x: 0, y: 2 });
    player_movement(&mut s, &both(1, 4 | 2, 8));
    assert_eq!(s.first, Position { x: -4, y: -2 });
    assert_eq!(s.second, Position { x: 2, y: 2 });
}

#[test]
fn equal_inputs_from_equal_states_give_equal_states() {
    let inputs = [both(0, 4, 0), both(1, 5, 8), both(2, 0, 2), both(3, 9, 9)];
    let mut a = GameState::new();
    let mut b = GameState::new();
    for i in inputs.iter() {
        player_movement(&mut a, i);
    }
    for i in inputs.iter() {
        player_movement(&mut b, i);
    }
    assert_eq!(a, b);
    assert_eq!(a.first, Position { x: -2, y: 4 });
    assert_eq!(a.second, Position { x: 4, y: 0 });
}

#[test]
fn save_then_load_restores_the_state() {
    let mut s = GameState::new();
    player_movement(&mut s, &both(0, 9, 6));
    let saved = save_world(&s);
    assert_eq!(saved, s);
    player_movement(&mut s, &both(1, 9, 6));
    assert_ne!(saved, s);
    load_world(&mut s, saved);
    assert_eq!(s, saved);
    assert_eq!(s.first, Position { x: 2, y: 2 });
    assert_eq!(s.second, Position { x: -2, y: -2 });
}

#[test]
fn game_input_is_read_by_handle() {
    let g = both(3, 4, 8);
    assert_eq!(g.get(PlayerHandle(0)), Ok(input(4)));
    assert_eq!(g.get(PlayerHandle(1)), Ok(input(8)));
    assert_eq!(g.get(PlayerHandle(2)), Err(SessionError::InvalidPlayer(PlayerHandle(2))));
    assert_eq!(g.get(PlayerHandle(255)), Err(SessionError::InvalidPlayer(PlayerHandle(255))));
}

#[test]
fn replay_applies_the_inputs_first_to_last() {
    let inputs = [both(0, 4, 0), both(1, 5, 8), both(2, 0, 2), both(3, 9, 9)];
    let mut replayed = GameState::new();
    replay(&mut replayed, &inputs);
    let mut stepped = GameState::new();
    for i in inputs.iter() {
        player_movement(&mut stepped, i);
    }
    assert_eq!(replayed, stepped);
    assert_eq!(replayed.first, Position { x: -2, y: 4 });
    assert_eq!(replayed.second, Position { x: 4, y: 0 });
}

#[test]
fn replay_of_nothing_changes_nothing() {
    let mut s = GameState { first: Position { x: 3, y: -3 }, second: Position { x: 0, y: 9 } };
    let before = s;
    replay(&mut s, &[]);
    assert_eq!(s, before);
}

#[test]
fn replay_from_a_saved_state_reaches_the_state_of_the_whole_run() {
    let inputs = [both(0, 8, 1), both(1, 8, 1), both(2, 2, 4), both(3, 10, 5), both(4, 0, 15)];
    let mut whole = GameState::new();
    replay(&mut whole, &inputs);
    for k in 0..=inputs.len() {
        let mut s = GameState::new();
        replay(&mut s, &inputs[..k]);
        let saved = save_world(&s);
        let mut restored = GameState::new();
        load_world(&mut restored, saved);
        replay(&mut restored, &inputs[k..]);
        assert_eq!(restored, whole);
    }
    assert_eq!(whole.first, Position { x: 6, y: -4 });
    assert_eq!(whole.second, Position { x: -4, y: 6 });
}

#[test]
fn the_order_of_the_inputs_matters_at_the_edge_only() {
    let mut a = GameState { first: Position { x: i32::MAX, y: 0 }, second: Position { x: 0, y: 0 } };
    let mut b = a;
    replay(&mut a, &[both(0, 8, 0), both(1, 4, 0)]);
    replay(&mut b, &[both(0, 4, 0), both(1, 8, 0)]);
    assert_eq!(a.first.x, i32::MAX - 2);
    assert_eq!(b.first.x, i32::MAX);
}
