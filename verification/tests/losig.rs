use losig::client::{Event, GameOverState, GameState, HelpState, HelpWidget, KeyCode, KeyEvent, KeyEventKind, KeyEventState, KeyModifiers, LimboState, PageSelection};
use losig::pages::{GameOverWidget, GamePage, InputRequest, LimboWidget, SharedState, TuiState};
use losig::client_world::{WorldState, WorldView, VIEW_SIZE};
use losig::events::{GEvent, GameEvent, Target};
use losig::foes::{reach_grid, select_best_action, FoeAction};
use losig::fov::{can_see, fov};
use losig::game::{handle_client_message, player_command};
use losig::leaderboard::{Leaderboard, LeaderboardEntry};
use losig::logs::{ClientLog, GameLogs};
use losig::network::{ClientMessage, ClientMessageContent, CommandMessage, Recipient, ServerMessage};
use losig::sense::{HearingLevel, SenseStrength, SenseType, Senses, SensesInfo, SightLevel};
use losig::stage::{check_template, Stage, StageError, StageState};
use losig::tiled_map::{convert_map, convert_tiled, get_foes, get_orb_spawns, parse_senses, MapError, MapProperties, NamedLayer, TileLayer, TiledMap};
use losig::types::{
    Avatar, ClientAction, Direction, Foe, FoeId, GameOver, GameOverStatus, Offset, Orb, Position, ServerAction, Tile, Tiles,
    Timeline, FOCUS_MAX, HP_MAX,
};
use losig::world::{CommandResult, Limbo, find_destination, player_label, CommandResultOutcome, Player, StageTemplate, TimelineType, TransitionDestination, World, WorldError};

fn pos(x: usize, y: usize) -> Position {
    Position { x, y }
}

/// A square room: walls around, a spawn tile in a corner, the orb in the
/// opposite corner.
fn room(size: usize) -> (Tiles, grid::Grid<bool>) {
    let mut tiles = Tiles::new(size, size);
    for x in 0..size {
        for y in 0..size {
            let tile = if x == 0 || y == 0 || x == size - 1 || y == size - 1 { Tile::Wall } else { Tile::Empty };
            tiles.set(pos(x, y), tile);
        }
    }
    tiles.set(pos(1, 1), Tile::Spawn);
    let mut orbs = grid::Grid::new(size, size);
    orbs[(size - 2, size - 2)] = true;
    (tiles, orbs)
}

fn template(size: usize, foes: Vec<Foe>) -> StageTemplate {
    let (tiles, orbs) = room(size);
    StageTemplate::new(
        "room".to_string(),
        "Room".to_string(),
        tiles,
        orbs,
        foes,
        4,
        vec![SenseType::SelfSense, SenseType::Sight, SenseType::Touch, SenseType::Hearing],
        100,
        TimelineType::Asynchronous,
    )
}

fn player(id: u32) -> Player {
    Player { id, name: format!("p{id}"), stage: Some(0), last_avatar: Avatar::new(id), gameover: None }
}

fn senses(selfs: bool, touch: bool, sight: u8, hearing: u8) -> Senses {
    Senses { selfs, touch, sight: SightLevel::new(sight).unwrap(), hearing: HearingLevel::new(hearing).unwrap() }
}

// ---------------------------------------------------------------- positions

#[test]
fn move_once_goes_one_tile() {
    let p = pos(5, 5);
    assert_eq!(p.move_once(Direction::Up), pos(5, 4));
    assert_eq!(p.move_once(Direction::DownRight), pos(6, 6));
    assert_eq!(p.move_once(Direction::Left), pos(4, 5));
}

#[test]
fn move_and_back_returns() {
    let p = pos(3, 8);
    for d in [Direction::Up, Direction::UpRight, Direction::UpLeft, Direction::Right, Direction::Left, Direction::DownRight, Direction::DownLeft, Direction::Down] {
        let q = p.move_once(d);
        assert_eq!(p.dist(&q), 1);
        let o = d.offset();
        assert_eq!(q.offset_by(Offset { x: -o.x, y: -o.y }), p);
    }
}

#[test]
fn distances() {
    let a = pos(1, 2);
    let b = pos(4, 7);
    assert_eq!(a.dist(&b), 5);
    assert_eq!(b.dist(&a), 5);
    assert_eq!(a.dist_manhattan(&b), 8);
    assert_eq!(a.dist(&a), 0);
}

#[test]
fn diff_and_offset_by_undo_each_other() {
    let a = pos(10, 3);
    let b = pos(4, 9);
    let d = a.diff(b);
    assert_eq!(d, Offset { x: 6, y: -6 });
    assert_eq!(b.offset_by(d), a);
}

#[test]
fn from_index_is_row_major() {
    assert_eq!(Position::from_index(7, 3), pos(1, 2));
    assert_eq!(pos(3, 4).as_offset(), Offset { x: 3, y: 4 });
}

#[test]
fn offset_arithmetic() {
    let a = Offset { x: 2, y: -3 };
    let b = Offset { x: -1, y: 5 };
    assert_eq!(a.plus(b), Offset { x: 1, y: 2 });
    assert_eq!(a.minus(b), Offset { x: 3, y: -8 });
    assert_eq!(a.negated(), Offset { x: -2, y: 3 });
}

// ------------------------------------------------------------------- tiles

#[test]
fn tiles_travel_and_opacity() {
    assert!(Tile::Empty.can_travel());
    assert!(Tile::Spawn.can_travel());
    assert!(Tile::Pylon.can_travel() || Tile::Pylon.opaque());
    assert!(!Tile::Wall.can_travel());
    assert!(Tile::Wall.opaque());
    for t in [Tile::Unknown, Tile::Wall, Tile::Empty, Tile::Spawn, Tile::Pylon] {
        assert_eq!(t.can_travel(), !t.opaque());
    }
}

#[test]
fn tiles_read_what_was_written() {
    let mut t = Tiles::new(4, 3);
    assert_eq!(t.width(), 4);
    assert_eq!(t.height(), 3);
    assert_eq!(t.center(), pos(2, 1));
    assert_eq!(t.get(pos(3, 2)), Tile::Unknown);
    t.set(pos(3, 2), Tile::Wall);
    assert_eq!(t.get(pos(3, 2)), Tile::Wall);
    t.set(pos(9, 9), Tile::Wall);
    assert_eq!(t.get(pos(9, 9)), Tile::Unknown);
    assert_eq!(t.at_offset_from_center(Offset { x: 1, y: 1 }), Tile::Wall);
}

#[test]
fn empty_tiles_when_a_side_is_zero() {
    let t = Tiles::new(0, 5);
    assert_eq!(t.width(), 0);
    assert_eq!(t.height(), 0);
}

// ------------------------------------------------------------ avatars, foes

#[test]
fn fresh_avatar() {
    let a = Avatar::new(7);
    assert_eq!(a.player_id, 7);
    assert_eq!(a.position, pos(1, 1));
    assert_eq!(a.hp, HP_MAX);
    assert_eq!(a.focus, FOCUS_MAX);
    assert_eq!(a.turns, 1);
    assert!(!a.is_dead());
}

#[test]
fn reset_keeps_player_and_turns() {
    let mut a = Avatar::new(3);
    a.hp = 0;
    a.turns = 42;
    a.position = pos(9, 9);
    assert!(a.is_dead());
    a.reset();
    assert_eq!(a.player_id, 3);
    assert_eq!(a.turns, 42);
    assert_eq!(a.hp, HP_MAX);
    assert_eq!(a.position, pos(1, 1));
}

#[test]
fn foes() {
    let snare = Foe::MindSnare(pos(2, 2));
    let mob = Foe::Simple(pos(3, 3), 2);
    let dead = Foe::Simple(pos(4, 4), 0);
    assert!(snare.alive() && !snare.can_be_attacked() && snare.is_trap());
    assert!(mob.alive() && mob.can_be_attacked() && !mob.is_trap());
    assert!(!dead.alive() && !dead.can_be_attacked());
    assert_eq!(snare.foe_id(), FoeId::MindSnare);
    assert_eq!(mob.foe_id(), FoeId::Simple);
    assert_eq!(snare.attack(), 3);
    assert_eq!(mob.attack(), 2);
    let mut m = mob;
    m.move_to(pos(5, 5));
    assert_eq!(m, Foe::Simple(pos(5, 5), 2));
}

#[test]
fn game_over_scores() {
    let mut a = Avatar::new(1);
    a.turns = 30;
    let lost = GameOver::new(&a, GameOverStatus::Dead, 1);
    let won = GameOver::new(&a, GameOverStatus::Win, 1);
    assert_eq!(lost.score, (200 - 30) * 100);
    assert_eq!(won.score, 2 * lost.score);
    a.turns = 500;
    assert_eq!(GameOver::new(&a, GameOverStatus::Win, 1).score, 0);
}

// ------------------------------------------------------------------ senses

#[test]
fn sense_levels() {
    assert!(SightLevel::new(11).is_none());
    assert_eq!(SightLevel::new(10).unwrap().get(), 10);
    assert!(HearingLevel::new(6).is_none());
    let s = SightLevel::new(10).unwrap();
    assert_eq!(s.incr().get(), 10);
    assert_eq!(s.decr().get(), 9);
    assert_eq!(SightLevel::min_strength().get(), 0);
    assert_eq!(HearingLevel::max_strength().get(), 5);
    assert_eq!(SenseStrength::merge(SightLevel::new(3).unwrap(), SightLevel::new(7).unwrap()).get(), 7);
    assert!(SenseStrength::merge(false, true));
}

#[test]
fn senses_cost() {
    assert_eq!(Senses::default().cost(), 8);
    assert_eq!(senses(false, false, 0, 0).cost(), 0);
    assert_eq!(senses(true, true, 10, 5).cost(), 19);
    assert_eq!(senses(false, true, 1, 2).cost(), 6);
}

// ------------------------------------------------------------- leaderboard

#[test]
fn leaderboard_keeps_scores_ordered() {
    let mut a = Avatar::new(1);
    let mut board = Leaderboard::new();
    for turns in [50u64, 10, 90, 10] {
        a.turns = turns;
        let g = GameOver::new(&a, GameOverStatus::Win, 0);
        board.add(LeaderboardEntry::new(format!("t{turns}"), &g));
    }
    let top = board.top_entries(10);
    let scores: Vec<u64> = top.iter().map(|e| e.gameover.score).collect();
    let mut sorted = scores.clone();
    sorted.sort();
    assert_eq!(scores, sorted);
    assert_eq!(top.len(), 4);
}

#[test]
fn leaderboard_entry_name_is_cut() {
    let g = GameOver::new(&Avatar::new(1), GameOverStatus::Dead, 0);
    let e = LeaderboardEntry::new("abcdefghijk".to_string(), &g);
    assert_eq!(e.name, "abcdefgh");
    let e = LeaderboardEntry::new("bob".to_string(), &g);
    assert_eq!(e.name, "bob");
}

// --------------------------------------------------------------------- fov

#[test]
fn fov_shows_the_map_around() {
    let (tiles, _) = room(7);
    let view = fov(pos(3, 3), 2, &tiles);
    assert_eq!(view.width(), 5);
    assert_eq!(view.height(), 5);
    // the viewer's own cell is not part of any quadrant
    assert_eq!(view.get(pos(2, 2)), Tile::Unknown);
    assert_eq!(view.get(pos(3, 2)), Tile::Empty);
    assert_eq!(view.get(pos(2, 3)), Tile::Empty);
    // nothing opaque stands within a tile of the viewer: every other cell of
    // the view shows the map's tile, the walls at two tiles included
    for x in 0..5 {
        for y in 0..5 {
            if (x, y) != (2, 2) {
                assert_eq!(view.get(pos(x, y)), tiles.get(pos(3 + x - 2, 3 + y - 2)));
            }
        }
    }
    assert_eq!(view.get(pos(0, 0)), Tile::Spawn);
    assert_eq!(view.get(pos(4, 0)), Tile::Empty);
}

#[test]
fn fov_is_sound_behind_walls() {
    let (tiles, _) = room(7);
    // From a corner, the view reaches past the walls, into the void.
    let view = fov(pos(1, 1), 3, &tiles);
    for x in 0..7 {
        for y in 0..7 {
            let t = view.get(pos(x, y));
            if t != Tile::Unknown {
                let (wx, wy) = (1 + x as isize - 3, 1 + y as isize - 3);
                if wx >= 0 && wy >= 0 {
                    assert_eq!(t, tiles.get(pos(wx as usize, wy as usize)));
                }
            }
        }
    }
    assert_eq!(view.get(pos(2, 2)), Tile::Wall);
}

#[test]
fn walls_hide_what_is_behind() {
    let mut tiles = Tiles::new(9, 3);
    for x in 0..9 {
        for y in 0..3 {
            tiles.set(pos(x, y), Tile::Empty);
        }
    }
    tiles.set(pos(3, 1), Tile::Wall);
    assert!(can_see(&tiles, pos(1, 1), pos(2, 1), 4));
    assert!(!can_see(&tiles, pos(1, 1), pos(5, 1), 4));
}

// ------------------------------------------------------------------- stage

#[test]
fn stage_starts_with_the_orb_on_its_spawn() {
    let stage = Stage::with_seed(template(7, vec![]), 17);
    assert_eq!(stage.head_turn, 0);
    assert_eq!(stage.tail_turn(), 0);
    assert_eq!(stage.head_state().orb.position, pos(5, 5));
    assert_eq!(stage.find_spawns(), vec![pos(1, 1)]);
}

#[test]
fn added_player_stands_on_the_spawn() {
    let mut stage = Stage::with_seed(template(7, vec![]), 1);
    stage.add_player(&player(4));
    assert_eq!(stage.head_turn, 1);
    let tracker = stage.avatar_trackers.get(&4).unwrap();
    assert_eq!(tracker.turn, 1);
    let state = stage.state_for(4).unwrap();
    assert_eq!(state.avatars.get(&4).unwrap().position, pos(1, 1));
}

#[test]
fn unknown_player_command_is_refused() {
    let mut stage = Stage::with_seed(template(7, vec![]), 1);
    let r = stage.add_command(9, ClientAction::Wait, Senses::default());
    assert!(matches!(r, Err(StageError::UnknownAvatar)));
    assert_eq!(stage.head_turn, 0);
}

#[test]
fn command_moves_one_turn_ahead() {
    let mut stage = Stage::with_seed(template(7, vec![]), 1);
    stage.add_player(&player(1));
    let r = stage.add_command(1, ClientAction::MoveOrAttack(Direction::Right), Senses::default()).unwrap();
    assert_eq!(r.stage_turn, 2);
    assert_eq!(r.action, ServerAction::Move(pos(2, 1)));
    assert_eq!(stage.avatar_trackers.get(&1).unwrap().turn, 2);
    let state = stage.state_for(1).unwrap();
    let avatar = state.avatars.get(&1).unwrap();
    assert_eq!(avatar.position, pos(2, 1));
    assert_eq!(avatar.focus, FOCUS_MAX - 8);
    assert_eq!(avatar.turns, 2);
    assert!(r.senses_info.selfi.is_some());
    assert_eq!(r.senses_info.selfi.unwrap().hp, HP_MAX);
    assert_eq!(r.timeline.head, 2);
}

#[test]
fn moving_into_a_wall_waits() {
    let mut stage = Stage::with_seed(template(7, vec![]), 1);
    stage.add_player(&player(1));
    let r = stage.add_command(1, ClientAction::MoveOrAttack(Direction::Up), Senses::default()).unwrap();
    assert_eq!(r.action, ServerAction::Wait);
    let state = stage.state_for(1).unwrap();
    assert_eq!(state.avatars.get(&1).unwrap().position, pos(1, 1));
}

#[test]
fn tired_avatar_senses_nothing() {
    let mut stage = Stage::with_seed(template(7, vec![]), 1);
    let mut p = player(1);
    p.last_avatar.focus = 3;
    stage.add_player(&p);
    let r = stage.add_command(1, ClientAction::Wait, Senses::default()).unwrap();
    assert!(r.senses_info.selfi.is_none());
    assert!(r.senses_info.sight.is_none());
    let state = stage.state_for(1).unwrap();
    assert!(state.avatars.get(&1).unwrap().tired);
}

#[test]
fn attacking_a_foe_hurts_it() {
    let mut stage = Stage::with_seed(template(7, vec![Foe::Simple(pos(2, 2), 3)]), 1);
    stage.add_player(&player(1));
    let r = stage.add_command(1, ClientAction::MoveOrAttack(Direction::DownRight), senses(true, false, 0, 0)).unwrap();
    assert_eq!(r.action, ServerAction::Attack(0));
    let state = stage.state_for(1).unwrap();
    match state.foes[0] {
        Foe::Simple(_, hp) => assert!(hp < 3),
        _ => panic!("the foe changed kind"),
    }
}

#[test]
fn removing_the_last_player_resets_the_stage() {
    let mut stage = Stage::with_seed(template(7, vec![]), 1);
    stage.add_player(&player(1));
    stage.add_command(1, ClientAction::Wait, Senses::default()).unwrap();
    let avatar = stage.remove_player(1).unwrap();
    assert_eq!(avatar.player_id, 1);
    assert!(stage.avatar_trackers.is_empty());
    assert_eq!(stage.head_turn, 0);
    assert!(stage.remove_player(1).is_none());
}

#[test]
fn slow_player_keeps_the_history() {
    let mut stage = Stage::with_seed(template(9, vec![]), 1);
    stage.add_player(&player(1));
    stage.add_player(&player(2));
    for _ in 0..3 {
        stage.add_command(2, ClientAction::Wait, senses(true, false, 0, 0)).unwrap();
    }
    // player 1 stands at turn 1, player 2 at turn 5
    assert_eq!(stage.avatar_trackers.get(&1).unwrap().turn, 1);
    assert_eq!(stage.avatar_trackers.get(&2).unwrap().turn, 5);
    assert_eq!(stage.tail_turn(), 1);
    let infos = stage.get_all_infos();
    assert_eq!(infos.len(), 2);
    assert_eq!(infos[0].0, 1);
    assert_eq!(infos[0].1, 1);
    assert_eq!(infos[1].1, 5);
    stage.add_command(1, ClientAction::Wait, senses(true, false, 0, 0)).unwrap();
    assert_eq!(stage.tail_turn(), 2);
}

#[test]
fn a_command_keeps_the_past() {
    let mut stage = Stage::with_seed(template(9, vec![]), 1);
    stage.add_player(&player(1));
    stage.add_player(&player(2));
    stage.add_command(2, ClientAction::MoveOrAttack(Direction::Down), senses(true, false, 0, 0)).unwrap();
    let tail = stage.tail_turn();
    let before: Vec<(u32, Position)> = stage.tail_state().avatars.iter().map(|(id, a)| (*id, a.position)).collect();
    let orb = stage.tail_state().orb.position;
    // The player ahead plays on: the turns behind it stay as they were.
    stage.add_command(2, ClientAction::MoveOrAttack(Direction::Right), senses(true, false, 0, 0)).unwrap();
    stage.add_command(2, ClientAction::Wait, senses(true, false, 0, 0)).unwrap();
    assert_eq!(stage.tail_turn(), tail);
    let after: Vec<(u32, Position)> = stage.tail_state().avatars.iter().map(|(id, a)| (*id, a.position)).collect();
    assert_eq!(before, after);
    assert_eq!(stage.tail_state().orb.position, orb);
}

#[test]
fn gather_info_for_unknown_player_fails() {
    let stage = Stage::with_seed(template(7, vec![]), 1);
    assert!(matches!(stage.gather_info(3, &Senses::default()), Err(StageError::UnknownAvatar)));
}

// -------------------------------------------------------------------- foes

#[test]
fn reach_grid_counts_down_from_the_witnessed_tile() {
    let (tiles, _) = room(7);
    let g = reach_grid(&tiles, pos(3, 3), 3);
    assert_eq!(g[(3, 3)], 3);
    assert_eq!(g[(4, 4)], 2);
    assert_eq!(g[(5, 5)], 1);
    assert_eq!(g[(1, 1)], 1);
    assert_eq!(g[(0, 0)], 0);
    let outside = reach_grid(&tiles, pos(30, 3), 3);
    assert_eq!(outside[(3, 3)], 0);
}

#[test]
fn foe_attacks_the_avatar_next_to_it() {
    let mut stage = Stage::with_seed(template(7, vec![Foe::Simple(pos(2, 2), 3)]), 1);
    stage.add_player(&player(1));
    // the foe acts during the turn that welcomes the avatar, before it arrives;
    // it attacks on the next one
    stage.add_command(1, ClientAction::Wait, senses(true, false, 0, 0)).unwrap();
    let state = stage.state_for(1).unwrap();
    assert!(state.avatars.get(&1).unwrap().hp < HP_MAX);
}

#[test]
fn trap_hurts_the_avatar_on_it() {
    let mut stage = Stage::with_seed(template(7, vec![Foe::MindSnare(pos(2, 1))]), 1);
    stage.add_player(&player(1));
    stage.add_command(1, ClientAction::MoveOrAttack(Direction::Right), senses(true, false, 0, 0)).unwrap();
    let state = stage.state_for(1).unwrap();
    assert_eq!(state.avatars.get(&1).unwrap().hp, HP_MAX - 3);
}

#[test]
fn foe_action_next_position() {
    let f = Foe::Simple(pos(2, 2), 1);
    assert_eq!(FoeAction::Wait.next_position(&f), pos(2, 2));
    assert_eq!(FoeAction::Attack(3).next_position(&f), pos(2, 2));
    assert_eq!(FoeAction::Move(pos(3, 2)).next_position(&f), pos(3, 2));
}

// ------------------------------------------------------------------- world

#[test]
fn new_player_enters_the_first_stage() {
    let mut world = World::new(vec![template(7, vec![])]);
    let r = world.new_player(1, None).unwrap();
    match r.outcome {
        CommandResultOutcome::Transition { stage_id, stage_turn, .. } => {
            assert_eq!(stage_id, 0);
            assert_eq!(stage_turn, 1);
        }
        _ => panic!("expected a transition"),
    }
    assert_eq!(world.player_by_id.get(&1).unwrap().name, "P1");
    world.new_player(2, Some("zoe".to_string())).unwrap();
    assert_eq!(world.player_by_id.get(&2).unwrap().name, "zoe");
}

#[test]
fn player_labels() {
    assert_eq!(player_label(1), "P1");
    assert_eq!(player_label(1234), "P1234");
    assert_eq!(player_label(0), "P0");
}

#[test]
fn world_errors() {
    let mut world = World::new(vec![template(7, vec![])]);
    assert!(matches!(world.add_command(5, ClientAction::Wait, Senses::default()), Err(WorldError::NoPlayer)));
    world.new_player(5, None).unwrap();
    world.player_by_id.get_mut(&5).unwrap().stage = None;
    assert!(matches!(world.add_command(5, ClientAction::Wait, Senses::default()), Err(WorldError::NotInStage)));
    world.player_by_id.get_mut(&5).unwrap().stage = Some(3);
    assert!(matches!(world.add_command(5, ClientAction::Wait, Senses::default()), Err(WorldError::NoStage)));
}

#[test]
fn world_command_plays_a_turn() {
    let mut world = World::new(vec![template(7, vec![])]);
    world.new_player(1, None).unwrap();
    let r = world.add_command(1, ClientAction::MoveOrAttack(Direction::Down), Senses::default()).unwrap();
    match r.outcome {
        CommandResultOutcome::Turn { stage, stage_turn, action, .. } => {
            assert_eq!(stage, 0);
            assert_eq!(stage_turn, 2);
            assert_eq!(action, ServerAction::Move(pos(1, 2)));
        }
        _ => panic!("expected a turn"),
    }
    assert_eq!(r.timeline_updates.len(), 1);
}

#[test]
fn reaching_the_orb_ends_the_last_stage() {
    let mut world = World::new(vec![template(4, vec![])]);
    world.new_player(1, None).unwrap();
    // the orb of a 4 wide room stands at (2, 2)
    let r = world.add_command(1, ClientAction::MoveOrAttack(Direction::DownRight), senses(true, false, 0, 0)).unwrap();
    match r.outcome {
        CommandResultOutcome::Gameover(g) => assert_eq!(g.status, GameOverStatus::Win),
        _ => panic!("expected the end of the game"),
    }
    assert!(world.player_by_id.get(&1).unwrap().stage.is_none());
    let g = world.retire_player(1).unwrap();
    assert_eq!(g.status, GameOverStatus::Win);
    assert!(world.player_by_id.get(&1).is_none());
}

#[test]
fn reaching_the_orb_leads_to_the_next_stage() {
    let mut world = World::new(vec![template(4, vec![]), template(7, vec![])]);
    world.new_player(1, None).unwrap();
    let r = world.add_command(1, ClientAction::MoveOrAttack(Direction::DownRight), senses(true, false, 0, 0)).unwrap();
    match r.outcome {
        CommandResultOutcome::Transition { stage_id, .. } => assert_eq!(stage_id, 1),
        _ => panic!("expected a transition"),
    }
    assert_eq!(world.player_by_id.get(&1).unwrap().stage, Some(1));
    assert!(world.stages[1].avatar_trackers.contains_key(&1));
    assert!(!world.stages[0].avatar_trackers.contains_key(&1));
}

#[test]
fn destinations() {
    let stages = vec![Stage::with_seed(template(7, vec![]), 0), Stage::with_seed(template(7, vec![]), 0)];
    assert_eq!(find_destination(&stages, &losig::types::Transition::Orb, 0), TransitionDestination::Stage(1));
    assert_eq!(find_destination(&stages, &losig::types::Transition::Orb, 1), TransitionDestination::End);
}

#[test]
fn retire_unknown_player() {
    let mut world = World::new(vec![template(7, vec![])]);
    assert!(world.retire_player(8).is_none());
}

// -------------------------------------------------------------------- game

#[test]
fn command_messages() {
    let mut world = World::new(vec![template(9, vec![])]);
    world.new_player(1, None).unwrap();
    world.new_player(2, None).unwrap();
    let msgs = player_command(&mut world, CommandMessage { player_id: 1, turn: 2, action: ClientAction::Wait, senses: Senses::default() }).unwrap();
    assert!(matches!(msgs[0].recipient, Recipient::Single(1)));
    match &msgs[0].message {
        ServerMessage::Turn(t) => {
            assert_eq!(t.turn, 2);
            assert_eq!(t.player_id, 1);
        }
        _ => panic!("expected a turn message"),
    }
    // the other player hears of the new timeline
    assert!(msgs.iter().skip(1).any(|m| matches!(m.recipient, Recipient::Single(2)) && matches!(m.message, ServerMessage::Timeline(..))));
    assert!(player_command(&mut world, CommandMessage { player_id: 9, turn: 1, action: ClientAction::Wait, senses: Senses::default() }).is_err());
}

#[test]
fn leaderboard_messages() {
    let mut world = World::new(vec![template(7, vec![])]);
    let mut board = Leaderboard::new();
    let r = handle_client_message(&mut world, &mut board, ClientMessage { player_id: Some(3), content: ClientMessageContent::Leaderboard });
    assert_eq!(r.len(), 1);
    assert!(matches!(r[0].recipient, Recipient::Single(3)));
    let r = handle_client_message(&mut world, &mut board, ClientMessage { player_id: None, content: ClientMessageContent::Start(3, None) });
    assert!(r.is_empty());
    assert!(world.player_by_id.contains_key(&3));
    let r = handle_client_message(&mut world, &mut board, ClientMessage { player_id: Some(3), content: ClientMessageContent::LeaderboardSubmit(3, "me".to_string()) });
    assert_eq!(r.len(), 1);
    assert!(matches!(r[0].recipient, Recipient::Broadcast));
    assert_eq!(board.top_entries(5).len(), 1);
    assert!(!world.player_by_id.contains_key(&3));
}

// -------------------------------------------------------------------- logs

#[test]
fn logs_are_sorted_and_deduplicated() {
    let mut logs = GameLogs::default();
    logs.add_server_events(5, vec![GEvent::new(vec![SenseType::Sight], GameEvent::OrbSeen)]);
    logs.add(3, ClientLog::Help);
    logs.add(3, ClientLog::Help);
    let l = logs.logs();
    assert_eq!(l.len(), 2);
    assert_eq!(l[0].turn, 3);
    assert_eq!(l[1].turn, 5);
}

#[test]
fn server_events_are_appended() {
    let mut logs = GameLogs::default();
    logs.add(1, ClientLog::Help);
    logs.add_server_events(2, vec![GEvent::new(vec![], GameEvent::Fumble(Target::You)), GEvent::new(vec![], GameEvent::OrbSeen)]);
    assert_eq!(logs.logs().len(), 3);
    assert_eq!(logs.logs()[2].turn, 2);
}

#[test]
fn events() {
    let e = GameEvent::Attack { subject: Target::Avatar(4), source: Target::Foe(FoeId::Simple) };
    assert!(e.has_player(4));
    assert!(!e.has_player(5));
    let g = GEvent::new(vec![SenseType::Touch], e.clone());
    assert_eq!(g.sources(), &[SenseType::Touch]);
    assert_eq!(g.event(), &e);
}

// ----------------------------------------------------------------- client

#[test]
fn client_map() {
    let mut state = WorldState::new();
    assert_eq!(state.position, pos(VIEW_SIZE / 2, VIEW_SIZE / 2));
    assert_eq!(state.tile_at(pos(3, 3)), Tile::Unknown);
    let mut view = Tiles::new(3, 3);
    for x in 0..3 {
        for y in 0..3 {
            view.set(pos(x, y), Tile::Empty);
        }
    }
    view.set(pos(2, 1), Tile::Wall);
    state.update_tiles(state.position, &view);
    assert_eq!(state.tile_from_viewer(Offset { x: 1, y: 0 }), Tile::Wall);
    assert_eq!(state.tile_from_viewer(Offset { x: -1, y: -1 }), Tile::Empty);
    assert!(!state.incoherent);
    // moving into the wall does nothing, moving down goes
    state.update_action(&ClientAction::MoveOrAttack(Direction::Right), None);
    assert_eq!(state.position, pos(128, 128));
    state.update_action(&ClientAction::MoveOrAttack(Direction::Down), None);
    assert_eq!(state.position, pos(128, 129));
    let window = state.tiles_for_fov(1);
    assert_eq!(window.get(pos(2, 0)), Tile::Wall);
    // a view that contradicts the map makes it incoherent
    let mut other = Tiles::new(1, 1);
    other.set(pos(0, 0), Tile::Empty);
    state.update_tiles(pos(129, 128), &other);
    assert!(state.incoherent);
    assert_eq!(state.tile_at(pos(129, 128)), Tile::Empty);
}

#[test]
fn client_view_turns() {
    let mut view = WorldView::new();
    assert_eq!(view.turn, 1);
    assert_eq!(view.logs.logs().len(), 1);
    view.act(&ClientAction::Wait, &Senses::default());
    assert_eq!(view.turn, 2);
    assert_eq!(view.history.len(), 1);
    for _ in 0..12 {
        view.act(&ClientAction::Wait, &Senses::default());
    }
    assert_eq!(view.history.len(), 10);
    view.update_timeline(0, losig::types::Timeline { head: 9, tail: 2 });
    assert_eq!(view.timeline.head, 9);
    view.update_timeline(4, losig::types::Timeline { head: 1, tail: 1 });
    assert_eq!(view.timeline.head, 9);
}

#[test]
fn help_pages() {
    let widget = HelpWidget;
    let mut state = HelpState { open: true, selection: 0, max: 2 };
    let key = |code| Event::Key(KeyEvent { code, modifiers: KeyModifiers { shift: false, control: false, alt: false, super_key: false, hyper: false, meta: false }, kind: KeyEventKind::Press, state: KeyEventState::Normal });
    assert!(widget.on_event(&key(KeyCode::Right), &mut state));
    assert!(widget.on_event(&key(KeyCode::Right), &mut state));
    assert!(widget.on_event(&key(KeyCode::Right), &mut state));
    assert_eq!(state.selection, 2);
    assert!(widget.on_event(&key(KeyCode::Left), &mut state));
    assert_eq!(state.selection, 1);
    assert!(widget.on_event(&Event::FocusLost, &mut state));
    assert!(widget.on_event(&key(KeyCode::Esc), &mut state));
    assert!(!state.open);
    assert!(!widget.on_event(&key(KeyCode::Right), &mut state));
    assert_eq!(state.selection, 1);
}

#[test]
fn choosing_senses() {
    let mut game = GameState { senses: senses(true, false, 0, 0), sense_selection: 1, help: HelpState { open: false, selection: 0, max: 0 }, stage: 3 };
    let available = [SenseType::SelfSense, SenseType::Sight];
    game.incr_sense(&available);
    game.incr_sense(&available);
    assert_eq!(game.senses.sight.get(), 2);
    game.decr_sense(&available);
    assert_eq!(game.senses.sight.get(), 1);
    game.sense_selection = 0;
    game.decr_sense(&available);
    assert!(!game.senses.selfs);
    game.sense_selection = 5;
    game.incr_sense(&available);
    assert!(!game.senses.selfs);
}

// ------------------------------------------------------------------- maps

fn layer(width: u32, height: u32, ids: &[(u32, u32, u32)]) -> TileLayer {
    let mut tiles = vec![None; (width * height) as usize];
    for &(x, y, id) in ids {
        tiles[(y * width + x) as usize] = Some(id);
    }
    TileLayer { width: Some(width), height: Some(height), tiles }
}

#[test]
fn terrain_from_tile_ids() {
    let l = layer(3, 2, &[(0, 0, 4), (1, 0, 2), (2, 1, 5), (1, 1, 9)]);
    let t = convert_tiled(&l).unwrap();
    assert_eq!(t.width(), 3);
    assert_eq!(t.height(), 2);
    assert_eq!(t.get(pos(0, 0)), Tile::Wall);
    assert_eq!(t.get(pos(1, 0)), Tile::Spawn);
    assert_eq!(t.get(pos(2, 1)), Tile::Pylon);
    assert_eq!(t.get(pos(1, 1)), Tile::Empty);
    assert_eq!(t.get(pos(0, 1)), Tile::Unknown);
    let missing = TileLayer { width: None, height: Some(2), tiles: vec![] };
    assert_eq!(convert_tiled(&missing).err(), Some(MapError::NoWidth));
    let missing = TileLayer { width: Some(2), height: None, tiles: vec![] };
    assert_eq!(convert_tiled(&missing).err(), Some(MapError::NoHeight));
}

#[test]
fn foes_and_orbs_from_tile_ids() {
    let l = layer(3, 3, &[(2, 0, 6), (0, 1, 1), (1, 1, 3)]);
    let foes = get_foes(&l).unwrap();
    assert_eq!(foes, vec![Foe::MindSnare(pos(0, 1)), Foe::Simple(pos(2, 0), 3)]);
    let orbs = get_orb_spawns(&l).unwrap();
    assert!(orbs[(1, 1)]);
    assert!(!orbs[(2, 0)]);
}

#[test]
fn senses_lists() {
    assert_eq!(parse_senses(&" Sight ; Touch;Nope;Hearing".to_string()), vec![SenseType::Sight, SenseType::Touch, SenseType::Hearing]);
    assert_eq!(parse_senses(&"".to_string()), vec![]);
    assert_eq!(parse_senses(&"SelfSense;".to_string()), vec![SenseType::SelfSense]);
}

#[test]
fn map_to_template() {
    let props = MapProperties { name: None, fp_regen: None, senses: None, timeline_length: Some(50), timeline_type: None };
    let map = TiledMap {
        layers: vec![
            NamedLayer { name: "Terrain".to_string(), tiles: Some(layer(3, 3, &[(1, 1, 2)])) },
            NamedLayer { name: "Foes".to_string(), tiles: Some(layer(3, 3, &[(2, 2, 6)])) },
            NamedLayer { name: "Orb".to_string(), tiles: Some(layer(3, 3, &[(0, 2, 3)])) },
        ],
        properties: props,
    };
    let t = convert_map("arena".to_string(), &map).unwrap();
    assert_eq!(t.name, "arena");
    assert_eq!(t.fp_regen, 4);
    assert_eq!(t.timeline_length, 50);
    assert_eq!(t.timeline_type, TimelineType::Asynchronous);
    assert_eq!(t.senses, vec![SenseType::SelfSense, SenseType::Sight, SenseType::Touch, SenseType::Hearing]);
    assert_eq!(t.foes, vec![Foe::Simple(pos(2, 2), 3)]);
    let no_orb = TiledMap { layers: vec![], properties: MapProperties { name: None, fp_regen: None, senses: None, timeline_length: None, timeline_type: None } };
    assert_eq!(convert_map("x".to_string(), &no_orb).err(), Some(MapError::NoTerrainLayer));
}

// ------------------------------------------------------------------- pages

fn key_with(code: KeyCode, shift: bool) -> Event {
    Event::Key(KeyEvent {
        code,
        modifiers: KeyModifiers { shift, control: false, alt: false, super_key: false, hyper: false, meta: false },
        kind: KeyEventKind::Press,
        state: KeyEventState::Normal,
    })
}

fn tui() -> TuiState {
    TuiState {
        game: GameState { stage: 5, ..GameState::default() },
        you_win: GameOverState::default(),
        limbo: LimboState::default(),
        page: PageSelection::Game,
        should_exit: false,
    }
}

#[test]
fn keys_act_unless_blocked() {
    let mut shared = SharedState::new(4);
    let mut t = tui();
    // Nothing is known around the start: a move is not blocked.
    let (taken, req) = GamePage.on_event(&key_with(KeyCode::Char('l'), false), &mut t, &shared);
    assert!(taken);
    match req {
        Some(InputRequest::Act(ClientAction::MoveOrAttack(Direction::Right), s)) => assert_eq!(s, t.game.senses),
        _ => panic!("expected a move to the right"),
    }
    let (taken, req) = GamePage.on_event(&key_with(KeyCode::Char('x'), false), &mut t, &shared);
    assert!(!taken);
    assert!(req.is_none());
    // A wall known to the right blocks the move.
    let p = shared.world.current_state.position;
    let mut view = Tiles::new(3, 3);
    view.set(pos(2, 1), Tile::Wall);
    shared.world.current_state.update_tiles(p, &view);
    let (taken, req) = GamePage.on_event(&key_with(KeyCode::Right, false), &mut t, &shared);
    assert!(taken);
    assert!(req.is_none());
    let (_, req) = GamePage.on_event(&key_with(KeyCode::Char(' '), false), &mut t, &shared);
    assert!(matches!(req, Some(InputRequest::Act(ClientAction::Wait, _))));
}

#[test]
fn shift_keys_tune_senses() {
    let shared = SharedState::new(4);
    let mut t = tui();
    t.game.stage = 1;
    assert_eq!(GamePage.on_event(&key_with(KeyCode::Down, true), &mut t, &shared).0, true);
    assert_eq!(t.game.sense_selection, 1);
    GamePage.on_event(&key_with(KeyCode::Char('J'), true), &mut t, &shared);
    assert_eq!(t.game.sense_selection, 1);
    assert!(!t.game.senses.touch);
    GamePage.on_event(&key_with(KeyCode::Char('L'), true), &mut t, &shared);
    assert!(t.game.senses.touch);
    GamePage.on_event(&key_with(KeyCode::Up, true), &mut t, &shared);
    GamePage.on_event(&key_with(KeyCode::Up, true), &mut t, &shared);
    assert_eq!(t.game.sense_selection, 0);
    GamePage.on_event(&key_with(KeyCode::Left, true), &mut t, &shared);
    assert!(!t.game.senses.selfs);
    let (taken, _) = GamePage.on_event(&key_with(KeyCode::Char('?'), false), &mut t, &shared);
    assert!(taken);
    assert!(t.game.help.open);
    // While the help is open it takes the keys.
    let (taken, req) = GamePage.on_event(&key_with(KeyCode::Char('l'), false), &mut t, &shared);
    assert!(taken);
    assert!(req.is_none());
    GamePage.on_event(&key_with(KeyCode::Esc, false), &mut t, &shared);
    assert!(!t.game.help.open);
}

#[test]
fn game_over_name_entry() {
    let mut state = GameOverState { open: true, name: String::new(), sent: false };
    let w = GameOverWidget;
    assert!(w.on_event(&key_with(KeyCode::Enter, false), &mut state).1.is_none());
    for c in "abcdefghij".chars() {
        w.on_event(&key_with(KeyCode::Char(c), false), &mut state);
    }
    assert_eq!(state.name, "abcdefgh");
    w.on_event(&key_with(KeyCode::Backspace, false), &mut state);
    assert_eq!(state.name, "abcdefg");
    assert_eq!(w.on_event(&Event::FocusGained, &mut state).0, false);
    match w.on_event(&key_with(KeyCode::Enter, false), &mut state) {
        (true, Some(InputRequest::SubmitLeaderboard(name))) => assert_eq!(name, "abcdefg"),
        _ => panic!("expected the name to be submitted"),
    }
    assert!(state.sent);
    assert_eq!(w.on_event(&Event::FocusGained, &mut state).0, true);
    assert!(!state.open);
}

#[test]
fn limbo_news_and_requests() {
    let mut shared = SharedState::new(7);
    let mut limbo = LimboState { open: true, averted: false };
    assert_eq!(LimboWidget.on_event(&key_with(KeyCode::Enter, false), &mut limbo).0, false);
    limbo.averted = true;
    let (taken, req) = LimboWidget.on_event(&key_with(KeyCode::Enter, false), &mut limbo);
    assert!(taken);
    assert!(!limbo.open);
    shared.limbo = Some(true);
    assert!(shared.perform(req.unwrap()).is_none());
    assert_eq!(shared.limbo, None);
    let m = shared.perform(InputRequest::Act(ClientAction::Wait, Senses::default())).unwrap();
    assert_eq!(shared.world.turn, 2);
    match m.content {
        ClientMessageContent::Command(c) => {
            assert_eq!(c.player_id, 7);
            assert_eq!(c.turn, 2);
            assert_eq!(c.action, ClientAction::Wait);
        }
        _ => panic!("expected a command"),
    }
    assert_eq!(m.player_id, Some(7));
    let m = shared.new_game();
    assert!(matches!(m.content, ClientMessageContent::Start(7, None)));
}

// ---------------------------------------------------------------- answers

#[test]
fn command_answers_in_order() {
    let nothing = || SensesInfo { selfi: None, touch: None, sight: None, hearing: None };
    let result = CommandResult {
        limbos: vec![Limbo::MaybeDead(9), Limbo::Dead(Avatar::new(8))],
        timeline_updates: vec![(0, Timeline { head: 5, tail: 1 })],
        outcome: CommandResultOutcome::Gameover(GameOver::new(&Avatar::new(3), GameOverStatus::Win, 0)),
    };
    let infos = vec![vec![(3, 5, nothing()), (4, 2, nothing())]];
    let msgs = losig::game::command_messages(3, 7, result, infos);
    assert_eq!(msgs.len(), 4);
    assert!(matches!(msgs[0].recipient, Recipient::Single(3)));
    match &msgs[0].message {
        ServerMessage::GameOver(g) => {
            assert_eq!(g.status, GameOverStatus::Win);
            assert_eq!(g.score, (100 - 1) * 200);
        }
        _ => panic!("the outcome comes first"),
    }
    // The player who played gets no timeline message.
    assert!(matches!(msgs[1].recipient, Recipient::Single(4)));
    assert!(matches!(msgs[1].message, ServerMessage::Timeline(0, 2, Timeline { head: 5, tail: 1 }, Some(_))));
    assert!(matches!(msgs[2].recipient, Recipient::Single(9)));
    assert!(matches!(msgs[2].message, ServerMessage::Limbo { averted: false, senses_info: None }));
    assert!(matches!(msgs[3].recipient, Recipient::Single(8)));
    match &msgs[3].message {
        ServerMessage::GameOver(g) => {
            assert_eq!(g.status, GameOverStatus::Dead);
            assert_eq!(g.stage, 1);
            assert_eq!(g.score, (200 - 1) * 100);
        }
        _ => panic!("a death ends the game"),
    }
}

#[test]
fn templates_need_a_spawn() {
    assert!(check_template(&template(7, vec![])));
    let mut t = template(7, vec![]);
    t.tiles.set(pos(1, 1), Tile::Empty);
    assert!(!check_template(&t));
}

// ----------------------------------------------------------- foe choices

fn lone_state(foe: Foe) -> StageState {
    StageState {
        turn: 3,
        foes: vec![foe],
        orb: Orb { position: pos(5, 5), excited: false },
        avatars: std::collections::BTreeMap::new(),
        events: vec![],
    }
}

#[test]
fn foe_heads_into_its_position_bound() {
    let foe = Foe::Simple(pos(2, 2), 3);
    let state = lone_state(foe);
    let actions = vec![
        FoeAction::Wait,
        FoeAction::Move(pos(3, 2)),
        FoeAction::Move(pos(2, 3)),
        FoeAction::Move(pos(1, 2)),
    ];
    let mut bound: grid::Grid<u8> = grid::Grid::new(5, 5);
    bound[(2, 2)] = 2;
    bound[(3, 2)] = 4;
    bound[(2, 3)] = 4;
    bound[(1, 2)] = 1;
    // the last of the actions that lead furthest inside the bound
    assert_eq!(select_best_action(&actions, &vec![], &foe, &state, Some(bound)), FoeAction::Move(pos(2, 3)));
    // without a bound, nothing draws the foe anywhere
    assert_eq!(select_best_action(&actions, &vec![], &foe, &state, None), FoeAction::Wait);
}

#[test]
fn foe_attack_comes_before_the_bound() {
    let foe = Foe::Simple(pos(2, 2), 3);
    let mut state = lone_state(foe);
    let mut avatar = Avatar::new(4);
    avatar.position = pos(2, 1);
    state.avatars.insert(4, avatar);
    let actions = vec![FoeAction::Wait, FoeAction::Move(pos(3, 2)), FoeAction::Attack(4)];
    let mut bound: grid::Grid<u8> = grid::Grid::new(5, 5);
    bound[(3, 2)] = 9;
    assert_eq!(select_best_action(&actions, &vec![4], &foe, &state, Some(bound)), FoeAction::Attack(4));
}

// ---------------------------------------------------------- command answers

#[test]
fn a_valid_command_is_answered_with_its_turn() {
    let mut world = World::new(vec![template(7, vec![])]);
    world.new_player(1, None).unwrap();
    let cmd = CommandMessage { player_id: 1, turn: 1, action: ClientAction::Wait, senses: Senses::default() };
    let msgs = player_command(&mut world, cmd).unwrap();
    assert_eq!(msgs.len(), 1);
    assert!(matches!(msgs[0].recipient, Recipient::Single(1)));
    match &msgs[0].message {
        ServerMessage::Turn(m) => {
            assert_eq!(m.player_id, 1);
            assert_eq!(m.turn, 1);
        }
        _ => panic!("a turn answers the command"),
    }
}

#[test]
fn an_empty_world_refuses_commands() {
    let mut world = World::new(vec![]);
    let cmd = CommandMessage { player_id: 7, turn: 1, action: ClientAction::Wait, senses: Senses::default() };
    assert!(matches!(player_command(&mut world, cmd), Err(WorldError::NoPlayer)));
    assert!(world.stages.is_empty());
}

#[test]
fn refused_commands_leave_the_world_alone() {
    let mut world = World::new(vec![template(7, vec![])]);
    world.new_player(5, None).unwrap();
    world.player_by_id.get_mut(&5).unwrap().stage = None;
    let head = world.stages[0].head_turn;
    assert!(matches!(world.add_command(5, ClientAction::Wait, Senses::default()), Err(WorldError::NotInStage)));
    assert_eq!(world.stages[0].head_turn, head);
    assert_eq!(world.player_by_id.len(), 1);
    assert!(matches!(world.add_command(6, ClientAction::Wait, Senses::default()), Err(WorldError::NoPlayer)));
    assert_eq!(world.stages[0].head_turn, head);
}

#[test]
fn start_then_command_through_the_dispatcher() {
    let mut world = World::new(vec![template(7, vec![])]);
    let mut leaderboard = Leaderboard::new();
    let start = ClientMessage { player_id: Some(2), content: ClientMessageContent::Start(2, None) };
    assert!(handle_client_message(&mut world, &mut leaderboard, start).is_empty());
    assert!(world.player_by_id.contains_key(&2));
    let cmd = CommandMessage { player_id: 2, turn: 1, action: ClientAction::Wait, senses: Senses::default() };
    let play = ClientMessage { player_id: Some(2), content: ClientMessageContent::Command(cmd) };
    let msgs = handle_client_message(&mut world, &mut leaderboard, play);
    assert_eq!(msgs.len(), 1);
    let stray = CommandMessage { player_id: 9, turn: 1, action: ClientAction::Wait, senses: Senses::default() };
    let refused = ClientMessage { player_id: Some(9), content: ClientMessageContent::Command(stray) };
    assert!(handle_client_message(&mut world, &mut leaderboard, refused).is_empty());
}

#[test]
fn an_avatar_turn_moves_and_counts() {
    let mut stage = Stage::with_seed(template(7, vec![]), 1);
    stage.add_player(&player(1));
    let before = stage.state_for(1).unwrap().avatars.get(&1).unwrap().clone();
    stage.add_command(1, ClientAction::MoveOrAttack(Direction::Down), senses(true, false, 0, 0)).unwrap();
    let after = stage.state_for(1).unwrap().avatars.get(&1).unwrap().clone();
    assert_eq!(after.turns, before.turns + 1);
    assert_eq!(after.position, pos(1, 2));
    assert_eq!(after.hp, before.hp);
}

#[test]
fn timeline_infos_carry_what_each_player_perceives() {
    let mut world = World::new(vec![template(7, vec![])]);
    world.new_player(1, None).unwrap();
    world.new_player(2, None).unwrap();
    let infos = world.get_all_infos_for_stage(0);
    assert_eq!(infos.len(), 2);
    for (_, _, info) in &infos {
        // with no command yet, a player perceives with the default senses
        assert!(info.selfi.is_some());
        assert!(info.sight.is_some());
        assert!(info.touch.is_none());
        assert!(info.hearing.is_none());
    }
    assert!(world.get_all_infos_for_stage(3).is_empty());
}

#[test]
fn a_command_reports_the_senses_it_asked_for() {
    let mut world = World::new(vec![template(7, vec![])]);
    world.new_player(1, None).unwrap();
    let r = world.add_command(1, ClientAction::Wait, senses(true, true, 2, 0)).unwrap();
    match r.outcome {
        CommandResultOutcome::Turn { info: Some(info), .. } => {
            assert!(info.selfi.is_some());
            assert!(info.touch.is_some());
            let sight = info.sight.unwrap();
            assert_eq!(sight.tiles.width(), 5);
            assert!(info.hearing.is_none());
        }
        _ => panic!("a turn with its senses info"),
    }
}

#[test]
fn foe_breaks_ties_between_noticed_avatars_by_list_order() {
    let foe = Foe::Simple(pos(5, 5), 3);
    let mut state = lone_state(foe);
    let mut far = Avatar::new(1);
    far.position = pos(7, 7);
    let mut near = Avatar::new(2);
    near.position = pos(7, 5);
    state.avatars.insert(1, far);
    state.avatars.insert(2, near);
    let actions = vec![FoeAction::Wait, FoeAction::Move(pos(5, 4))];
    // both avatars stand two tiles away from (5, 5): the first listed is the nearest
    assert_eq!(select_best_action(&actions, &vec![1, 2], &foe, &state, None), FoeAction::Move(pos(5, 4)));
    assert_eq!(select_best_action(&actions, &vec![2, 1], &foe, &state, None), FoeAction::Wait);
}

#[test]
fn a_new_stage_holds_the_template_foes_and_its_orb() {
    let foes = vec![Foe::Simple(pos(2, 2), 3), Foe::MindSnare(pos(3, 4))];
    let stage = Stage::new(template(7, foes.clone()));
    assert_eq!(stage.head_turn, 0);
    let state = stage.head_state();
    assert_eq!(state.turn, 0);
    assert_eq!(state.foes, foes);
    assert!(state.avatars.is_empty());
    // the room's only orb spawn is its far corner
    assert_eq!(state.orb.position, pos(5, 5));
    assert!(!state.orb.excited);
    let world = World::new(vec![template(7, foes.clone()), template(5, vec![])]);
    assert_eq!(world.stages.len(), 2);
    assert_eq!(world.stages[0].head_state().foes, foes);
    assert!(world.stages[1].head_state().foes.is_empty());
}

#[test]
fn the_game_page_catches_up_with_limbo_news() {
    let mut state = tui();
    state.game.stage = 1;
    let mut shared = SharedState::new(1);
    GamePage.sync(&mut state, &shared);
    assert_eq!(state.game.stage, 5);
    assert!(!state.limbo.open);
    shared.limbo = Some(true);
    GamePage.sync(&mut state, &shared);
    assert!(state.limbo.open);
    assert!(state.limbo.averted);
}
