use rand::rngs::StdRng;
use rand::SeedableRng;
use spacerl::actions::{attack_effects, move_outcome, Action, EntityActions, MoveOutcome};
use spacerl::ai::{decide, AiDecision};
use spacerl::area::{Cell, Tile};
use spacerl::cfg::{Cfg, HOUSE_MAP, SHIP_MAP};
use spacerl::combat::{execute_attack, resolve_attack, CombatResult, CombatStats, Dice};
use spacerl::game_log::{GameLog, Msg};
use spacerl::grid::GridCell;
use spacerl::grid_string::parse_map;
use spacerl::health::Health;
use spacerl::loader::{new_grid_from_ast, new_parser, parse_map_objects};
use spacerl::models::{Dir, ObjKind};
use spacerl::recti::RectI;
use spacerl::ship::{clamp, fly_step, landing_position, Command, Ship, FLY_SLEEP_TIME};
use spacerl::team::Team;
use spacerl::text::int_to_string;
use spacerl::v2i::V2I;
use spacerl::view::cockpit_window::{CockpitWindowState, SubWindow};
use spacerl::view::game_window::GameWindowState;
use spacerl::view::{get_window_rect, ScreenLayout};
use spacerl::visibility::{retain_inside, Visibility, VisibilityMemory};

#[test]
fn test_view_grid() {}

#[test]
fn test_landing() {
    let pos = landing_position(100, 100, 27, 17);
    assert_eq!(V2I::new(37, 42), pos);
}

#[test]
fn messages_read_as_the_game_prints_them() {
    let attack = Msg::PlayerAttack { hit_roll: 5, hit_require: 3, damage: 2 };
    assert_eq!("attack a mob, roll 5 from 3, cause damage of 2", attack.to_string());
    let received = Msg::PlayerReceiveAttack { hit_roll: 5, hit_require: 3, damage: 2 };
    assert_eq!("hit, roll 3 from 5, cause damage of 2", received.to_string());
    let miss = Msg::PlayerMissAttack { hit_roll: -1, hit_require: 12 };
    assert_eq!("miss, roll -1 from 12", miss.to_string());
    let defend = Msg::PlayerReceiveMissAttack { hit_roll: 4, hit_require: 6 };
    assert_eq!("defend, roll 6 from 4", defend.to_string());
    assert_eq!("mob dies", Msg::Died.to_string());
    assert_eq!("ship landed into planet", Msg::ShipLand.to_string());
    assert_eq!("ship launch into space", Msg::ShipLaunch.to_string());
    assert_eq!("move", Msg::PlayerMove.to_string());
    assert_eq!("fail to move", Msg::PlayerFailMove.to_string());
}

#[test]
fn numbers_are_written_in_decimal() {
    assert_eq!("0", int_to_string(0));
    assert_eq!("1234", int_to_string(1234));
    assert_eq!("-2147483648", int_to_string(i32::MIN));
    assert_eq!("2147483647", int_to_string(i32::MAX));
}

#[test]
fn the_log_hands_out_messages_in_order_and_empties() {
    let mut log = GameLog::default();
    log.push(Msg::PlayerMove);
    log.push(Msg::Died);
    assert_eq!(2, log.list().len());
    let taken = log.take();
    assert_eq!(2, taken.len());
    assert!(matches!(taken[0], Msg::PlayerMove));
    assert!(matches!(taken[1], Msg::Died));
    assert!(log.list().is_empty());
    assert!(log.take().is_empty());
}

#[test]
fn teams_are_enemies_when_they_differ() {
    assert!(Team::Player.is_enemy(Team::Mob));
    assert!(!Team::Mob.is_enemy(Team::Mob));
}

#[test]
fn tiles_block_sight_and_hold_nothing() {
    assert!(Tile::Wall.is_opaque());
    assert!(Tile::OutOfMap.is_opaque());
    assert!(!Tile::Floor.is_opaque());
    assert!(Tile::Space.is_nothing());
    assert!(!Tile::Ground.is_nothing());
    assert_eq!(Tile::Space, Tile::default());
    let cell = Cell::new(Tile::Wall);
    assert!(cell.is_opaque());
    assert!(!cell.is_walkable());
    assert!(!cell.is_empty());
    assert!(Cell::default().is_empty());
}

#[test]
fn the_built_in_maps_are_read() {
    let cfg = Cfg::new();
    assert_eq!(8, cfg.map_parser.raw_map_tiles.len());
    assert_eq!(5, cfg.map_parser.raw_map_objects.len());
    let ast = parse_map(new_parser(cfg.clone()), SHIP_MAP).expect("fail to load map");
    assert_eq!(27, ast.width);
    assert_eq!(17, ast.height);
    let grid = new_grid_from_ast(&ast);
    assert_eq!(Tile::Wall, grid.get_at(&V2I::new(7, 2)).tile);
    assert_eq!(Tile::Space, grid.get_at(&V2I::new(0, 0)).tile);
    let objects = parse_map_objects(V2I::new(0, 0), &ast);
    assert!(objects.contains(&(V2I::new(8, 8), ObjKind::Cockpit)));
    assert!(objects.contains(&(V2I::new(7, 3), ObjKind::Engine)));
    assert!(objects.contains(&(V2I::new(9, 6), ObjKind::Door { vertical: false, open: false })));
    assert_eq!(6 + 1 + 8, objects.len());

    let house = parse_map(new_parser(cfg), HOUSE_MAP).expect("fail to load house map");
    assert_eq!(9, house.width);
    assert_eq!(10, house.height);
    let doors = parse_map_objects(V2I::new(80, 50), &house);
    assert!(doors.contains(&(V2I::new(80, 52), ObjKind::Door { vertical: true, open: false })));
    assert_eq!(7, doors.len());
}

#[test]
fn an_unknown_map_char_has_no_tile() {
    let parsed = parse_map(new_parser(Cfg::new()), "..\n.?");
    assert!(parsed.is_err());
}

#[test]
fn dice_rolls_stay_in_their_range() {
    let mut rng: StdRng = SeedableRng::seed_from_u64(3);
    let dice = Dice::new(2, 1);
    for _ in 0..100 {
        let r = dice.roll(&mut rng);
        assert!((3..=13).contains(&r));
    }
}

#[test]
fn attacks_hit_when_the_attack_beats_the_defence() {
    assert!(matches!(
        resolve_attack(5, 3, 2),
        CombatResult::AttackHit { hit_roll: 5, hit_require: 3, damage_roll: 2 }
    ));
    assert!(matches!(resolve_attack(3, 3, 2), CombatResult::Defend { hit_roll: 3, hit_require: 3 }));
    let mut rng: StdRng = SeedableRng::seed_from_u64(1);
    let stats = CombatStats { attack: Dice::new(1, 0), defense: Dice::new(1, 0), damage: Dice::new(1, 0) };
    match execute_attack(&mut rng, &stats, None) {
        CombatResult::AttackHit { hit_require, hit_roll, .. } => {
            assert_eq!(1, hit_require);
            assert!(hit_roll > 1);
        }
        CombatResult::Defend { hit_require, hit_roll } => {
            assert_eq!(1, hit_require);
            assert_eq!(1, hit_roll);
        }
    }
}

#[test]
fn attack_effects_report_to_the_player() {
    let hit = CombatResult::AttackHit { hit_roll: 5, hit_require: 3, damage_roll: 4 };
    let (damage, msg) = attack_effects(1, 2, 1, &hit);
    assert_eq!(Some(1), damage);
    assert!(matches!(msg, Some(Msg::PlayerAttack { hit_roll: 5, hit_require: 3, damage: 4 })));
    let (_, msg) = attack_effects(2, 1, 1, &hit);
    assert!(matches!(msg, Some(Msg::PlayerReceiveAttack { .. })));
    let miss = CombatResult::Defend { hit_roll: 2, hit_require: 3 };
    let (damage, msg) = attack_effects(2, 3, 1, &miss);
    assert_eq!(None, damage);
    assert!(msg.is_none());
}

#[test]
fn moves_end_blocked_in_a_fight_or_on_the_cell() {
    assert!(matches!(move_outcome(true, false, None), (MoveOutcome::Blocked, Some(Msg::PlayerFailMove))));
    assert!(matches!(move_outcome(true, true, Some(9)), (MoveOutcome::Attack(9), None)));
    assert!(matches!(move_outcome(true, true, None), (MoveOutcome::Step, Some(Msg::PlayerMove))));
    assert!(matches!(move_outcome(false, true, None), (MoveOutcome::Step, None)));
    let actions = EntityActions::new();
    assert!(actions.available.is_empty());
    assert_eq!(Action::Move(V2I::new(1, 0)), Action::Move(V2I::new(1, 0)));
}

#[test]
fn pending_damage_is_taken_off() {
    let mut h = Health { hp: 3, max_hp: 10, pending_damage: vec![1, 1] };
    assert!(!h.apply_pending_damage());
    assert_eq!(1, h.hp);
    assert!(h.pending_damage.is_empty());
    h.pending_damage.push(1);
    assert!(h.apply_pending_damage());
    assert_eq!(0, h.hp);
}

#[test]
fn ships_fly_one_cell_a_step() {
    assert_eq!(-1, clamp(-5, -1, 1));
    assert_eq!(1, clamp(5, -1, 1));
    assert_eq!(0, clamp(0, -1, 1));
    assert_eq!(Some(V2I::new(1, -1)), fly_step(V2I::new(0, 0), V2I::new(5, -3)));
    assert_eq!(Some(V2I::new(0, 1)), fly_step(V2I::new(0, 0), V2I::new(0, 3)));
    assert_eq!(None, fly_step(V2I::new(2, 2), V2I::new(2, 2)));
    let mut ship = Ship { current_command: Command::Launch, move_calm_down: 1 };
    assert_eq!(None, ship.tick());
    assert_eq!(0, ship.move_calm_down);
    assert_eq!(Some(Command::Launch), ship.tick());
    ship.current_command = Command::Idle;
    assert_eq!(None, ship.tick());
    assert_eq!(60, FLY_SLEEP_TIME);
}

#[test]
fn mobs_attack_when_next_to_the_player() {
    assert_eq!(AiDecision::Wait, decide(false, &vec![], 4, V2I::new(0, 0)));
    assert_eq!(AiDecision::Attack, decide(true, &vec![0, 1], 4, V2I::new(0, 0)));
    assert_eq!(AiDecision::Move(V2I::new(0, 1)), decide(true, &vec![0, 4, 8], 4, V2I::new(0, 0)));
}

#[test]
fn the_screen_is_laid_out_in_regions() {
    let layout = ScreenLayout::new(120, 100);
    assert_eq!(RectI::new(30, 0, 90, 91), layout.get_main_area_rect());
    assert_eq!(RectI::new(0, 0, 29, 90), layout.get_left_rect());
    assert_eq!(RectI::new(30, 91, 89, 8), layout.get_logs_rect());
    assert_eq!(RectI::new(0, 91, 29, 8), layout.get_info_rect());
    assert_eq!(RectI::new(0, 0, 120, 100), get_window_rect());
    let cockpit = CockpitWindowState::new(SubWindow::Land { selected: V2I::new(1, 1) });
    assert!(cockpit.last_msg.is_none());
    assert!(matches!(GameWindowState::default().sub_window, spacerl::view::game_window::SubWindow::Normal));
}

#[test]
fn visible_cells_are_clipped_and_remembered() {
    let tiles = vec![V2I::new(-1, 0), V2I::new(0, 0), V2I::new(3, 3), V2I::new(2, 1)];
    assert_eq!(vec![V2I::new(0, 0), V2I::new(2, 1)], retain_inside(&tiles, 3, 3));
    let mut memory = VisibilityMemory::new();
    assert!(!memory.is_know(7, V2I::new(0, 0)));
    memory.remember(7, &vec![V2I::new(0, 0), V2I::new(-4, 2)]);
    assert!(memory.is_know(7, V2I::new(-4, 2)));
    assert!(!memory.is_know(8, V2I::new(-4, 2)));
    assert!(!memory.is_know(7, V2I::new(2, -4)));
    let v = Visibility::default();
    assert_eq!(0, v.range);
}

#[test]
fn directions_turn_round() {
    assert_eq!(Dir::S, Dir::N.inv());
    assert_eq!(Dir::W, Dir::E.inv().inv().inv());
    assert_eq!("n", Dir::N.as_str());
    assert_eq!((1, 0), Dir::E.as_vec());
}

#[test]
fn the_game_ship_fits_on_a_ground_zone() {
    let ast = parse_map(new_parser(Cfg::new()), SHIP_MAP).unwrap();
    let ship = spacerl::grid::NGrid::from_grid(new_grid_from_ast(&ast));
    let zone = spacerl::grid::NGrid::from_grid(spacerl::grid::Grid::new(100, 100, || Cell::new(Tile::Ground)));
    let pos = landing_position(100, 100, ship.get_width(), ship.get_height());
    assert!(spacerl::ship::can_land(&zone, &ship, pos));
}
