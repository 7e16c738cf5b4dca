use bioengineer::world::networks::Networks;
use bioengineer::world::world_map::cell_index::CellIndex;
use bioengineer::world::game_state::{
    GameState, GOAL_AIR_CLEANED, DEFAULT_ADVANCE_FLUID_EVERY_N_FRAMES, DEFAULT_ADVANCE_ROBOTS_EVERY_N_FRAMES,
    DEFAULT_AGING_EVERY_N_FRAMES,
};
use bioengineer::world::world_map::cell::{Cell, TileType, DEFAULT_HEALTH};
use bioengineer::world::{age_tile, transition_goal_state, GameGoalState};

#[test]
fn test_trees_decay() {
    let mut cell = Cell::new(TileType::TreeHealthy);
    cell.health = DEFAULT_HEALTH;
    age_tile(&mut cell, GameGoalState::Started);
    assert_eq!(cell.health, DEFAULT_HEALTH - 1);
}

#[test]
fn test_trees_transition() {
    let mut cell = Cell::new(TileType::TreeHealthy);
    cell.health = 0;
    age_tile(&mut cell, GameGoalState::Started);
    assert_eq!(cell.health, DEFAULT_HEALTH);
    assert_eq!(cell.tile_type, TileType::TreeSparse);
}

#[test]
fn test_trees_do_not_decay_when_air_is_clean() {
    let mut cell = Cell::new(TileType::TreeHealthy);
    cell.health = DEFAULT_HEALTH;
    age_tile(&mut cell, GameGoalState::ReachedProduction);
    assert_eq!(cell.health, DEFAULT_HEALTH);
}

#[test]
fn test_advance_robots() {
    let mut game_state = GameState::new(true);
    assert_eq!(game_state.should_advance_robots_this_frame(), true);
    game_state.advance_frame();
    for i in 1..DEFAULT_ADVANCE_ROBOTS_EVERY_N_FRAMES {
        assert_eq!(game_state.should_advance_robots_this_frame(), false, "on iteration {}", i);
        game_state.advance_frame();
    }
    assert_eq!(game_state.should_advance_robots_this_frame(), true);
}

#[test]
fn test_advance_robots_every_frame() {
    let mut game_state = GameState::new(true);
    game_state.set_advance_every_frame();
    assert_eq!(game_state.should_advance_robots_this_frame(), true);
    game_state.advance_frame();
    assert_eq!(game_state.should_advance_robots_this_frame(), true);
    game_state.advance_frame();
    assert_eq!(game_state.should_advance_robots_this_frame(), true);
}

#[test]
fn test_advance_fluids() {
    let mut game_state = GameState::new(true);
    assert_eq!(game_state.should_advance_fluids_this_frame(), false);
    game_state.advance_frame();
    assert_eq!(game_state.should_advance_fluids_this_frame(), true);
    game_state.advance_frame();
    for i in 1..DEFAULT_ADVANCE_FLUID_EVERY_N_FRAMES {
        assert_eq!(game_state.should_advance_fluids_this_frame(), false, "on iteration {}", i);
        game_state.advance_frame();
    }
    assert_eq!(game_state.should_advance_fluids_this_frame(), true);
}

#[test]
fn test_advance_fluids_every_frame() {
    let mut game_state = GameState::new(true);
    game_state.set_advance_every_frame();
    assert_eq!(game_state.should_advance_fluids_this_frame(), true);
    game_state.advance_frame();
    assert_eq!(game_state.should_advance_fluids_this_frame(), true);
    game_state.advance_frame();
    assert_eq!(game_state.should_advance_fluids_this_frame(), true);
}

#[test]
fn test_age() {
    let mut game_state = GameState::new(true);
    assert_eq!(game_state.should_age_this_frame(), false);
    game_state.advance_frame();
    assert_eq!(game_state.should_age_this_frame(), false);
    game_state.advance_frame();
    assert_eq!(game_state.should_age_this_frame(), true);
    game_state.advance_frame();
    for i in 1..DEFAULT_AGING_EVERY_N_FRAMES {
        assert_eq!(game_state.should_age_this_frame(), false, "on iteration {}", i);
        game_state.advance_frame();
    }
    assert_eq!(game_state.should_age_this_frame(), true);
}

#[test]
fn test_age_every_frame() {
    let mut game_state = GameState::new(true);
    game_state.set_advance_every_frame();

    assert_eq!(game_state.should_age_this_frame(), true);
    game_state.advance_frame();
    assert_eq!(game_state.should_age_this_frame(), true);
    game_state.advance_frame();
    assert_eq!(game_state.should_age_this_frame(), true);
}

#[test]
fn test_starting() {
    let networks = Networks::new_default();
    let mut current_goal = GameGoalState::Started;
    transition_goal_state(&mut current_goal, &networks, 0, 100);
    assert_eq!(current_goal, GameGoalState::Started);
}

#[test]
fn test_producing() {
    let mut networks = Networks::new_default();
    networks.set_production(GOAL_AIR_CLEANED / 2);
    let mut current_goal = GameGoalState::Started;
    transition_goal_state(&mut current_goal, &networks, 0, 100);
    assert_eq!(current_goal, GameGoalState::Started);
}

#[test]
fn test_reaching_production() {
    let mut networks = Networks::new_default();
    networks.set_production(GOAL_AIR_CLEANED);
    let mut current_goal = GameGoalState::Started;
    transition_goal_state(&mut current_goal, &networks, 0, 100);
    assert_eq!(current_goal, GameGoalState::ReachedProduction);
}

#[test]
fn test_finishing() {
    let mut networks = Networks::new_default();
    networks.set_production(GOAL_AIR_CLEANED);
    let mut current_goal = GameGoalState::ReachedProduction;
    transition_goal_state(&mut current_goal, &networks, 50, 100);
    assert_eq!(current_goal, GameGoalState::Finished(100));
}

#[test]
fn test_dismantling() {
    let mut networks = Networks::new_default();
    networks.add(CellIndex::default(), TileType::MachineAirCleaner, TileType::Air);
    networks.set_production(GOAL_AIR_CLEANED);
    let mut current_goal = GameGoalState::ReachedProduction;
    transition_goal_state(&mut current_goal, &networks, 0, 100);
    assert_eq!(current_goal, GameGoalState::ReachedProduction);
}
