use lycan::authentication::{AuthenticationManager, AuthenticationToken};
use lycan::data::{format_uuid, GameMap, Player};
use lycan::game::{Game, GameAction, GameParameters};
use lycan::instance::ShuttingDownState;
use lycan::messages::{ClientInfo, Command, Request};
use lycan::resource::ResourceManager;

const CHARACTER: u128 = 0x42424242_4242_4242_4242_424242424242;

fn parameters() -> GameParameters {
    GameParameters {
        port: 7777,
        configuration_url: String::from("http://localhost:8000"),
        tick_period_us: 16_666,
        default_fallback: true,
    }
}

#[test]
fn authentication_consumes_a_matching_token() {
    let mut manager = AuthenticationManager::new();
    manager.add_token(CHARACTER, AuthenticationToken(b"secret".to_vec()));
    assert!(manager.verify_token(CHARACTER, AuthenticationToken(b"secret".to_vec())));
    assert!(
        !manager.verify_token(CHARACTER, AuthenticationToken(b"secret".to_vec())),
        "a matching token is consumed"
    );
}

#[test]
fn authentication_retains_the_token_on_mismatch() {
    let mut manager = AuthenticationManager::new();
    manager.add_token(CHARACTER, AuthenticationToken(b"secret".to_vec()));
    assert!(!manager.verify_token(CHARACTER, AuthenticationToken(b"wrong".to_vec())));
    assert!(
        manager.verify_token(CHARACTER, AuthenticationToken(b"secret".to_vec())),
        "a mismatch retains the token for a retry"
    );
    assert!(!manager.verify_token(9, AuthenticationToken(b"secret".to_vec())));
}

#[test]
fn uuids_format_canonically() {
    assert_eq!(format_uuid(CHARACTER), "42424242-4242-4242-4242-424242424242");
    assert_eq!(format_uuid(0), "00000000-0000-0000-0000-000000000000");
}

#[test]
fn default_fallback_synthesises_a_player() {
    let manager = ResourceManager::new_rest(String::from("http://localhost:8000"), true);
    let player = manager.resolve_player_fetch(CHARACTER, None).expect("fallback");
    assert_eq!(player.id, CHARACTER);
    assert_eq!(player.current_pv, 100);
    assert_eq!(player.position.x, 0);
    assert_eq!(player.position.y, 0);
    assert_eq!(player.name, "Player 42424242-4242-4242-4242-424242424242");
    let strict = ResourceManager::new_rest(String::from("http://localhost:8000"), false);
    assert!(strict.resolve_player_fetch(CHARACTER, None).is_none());
}

#[test]
fn default_fallback_synthesises_a_map() {
    let manager = ResourceManager::new_rest(String::from("http://localhost:8000"), true);
    let map = manager.resolve_map_fetch(7, None).expect("fallback");
    assert_eq!(map.get_id(), 7);
    assert_eq!(map.get_row_size(), 10);
    assert_eq!(map.get_number_row(), 10);
}

#[test]
fn map_tile_grid_accepted() {
    let tiles = vec![true, false, true, true, true, false, true, true, false];
    assert!(GameMap::new(7, String::from("m"), 3, 3, tiles).is_ok());
}

#[test]
fn map_tile_grid_length_refused() {
    let tiles = vec![true, false, true, true, true, false, true, true];
    assert!(GameMap::new(7, String::from("m"), 3, 3, tiles).is_err());
}

#[test]
fn graceful_shutdown_exits_after_the_last_acknowledgement() {
    let mut game = Game::new(parameters());
    let mut actions: Vec<GameAction> = Vec::new();
    game.on_instance_spawned(7, 1, &mut actions);
    game.on_instance_spawned(7, 2, &mut actions);
    actions.clear();
    game.start_shutdown(&mut actions);
    let shutdowns = actions
        .iter()
        .filter(|a| {
            matches!(a, GameAction::SendToInstance { command: Command::Shutdown, .. })
        })
        .count();
    assert_eq!(shutdowns, 2, "every instance is told to stop");
    let mut actions: Vec<GameAction> = Vec::new();
    let exit = game.apply(
        Request::InstanceShuttingDown(ShuttingDownState::new(1)),
        &mut actions,
    );
    assert!(!exit, "one instance still running");
    let exit = game.apply(
        Request::InstanceShuttingDown(ShuttingDownState::new(2)),
        &mut actions,
    );
    assert!(exit, "the last acknowledgement exits the loop");
}

#[test]
fn a_new_client_fetches_its_record() {
    let mut game = Game::new(parameters());
    let mut actions: Vec<GameAction> = Vec::new();
    game.new_client(ClientInfo { uuid: CHARACTER }, &mut actions);
    assert!(matches!(actions[0], GameAction::FetchPlayer { player } if player == CHARACTER));
}

#[test]
fn a_second_session_for_the_same_character_kicks() {
    let mut game = Game::new(parameters());
    let mut actions: Vec<GameAction> = Vec::new();
    game.new_client(ClientInfo { uuid: CHARACTER }, &mut actions);
    actions.clear();
    game.new_client(ClientInfo { uuid: CHARACTER }, &mut actions);
    assert!(matches!(actions[0], GameAction::Kick { player } if player == CHARACTER));
}

#[test]
fn a_fetched_player_is_routed_towards_its_map() {
    let mut game = Game::new(parameters());
    let mut actions: Vec<GameAction> = Vec::new();
    game.new_client(ClientInfo { uuid: CHARACTER }, &mut actions);
    actions.clear();
    let record = Player::default_player(CHARACTER);
    let map = record.get_map_position();
    game.on_player_fetched(CHARACTER, Some(record), &mut actions);
    assert!(
        actions.iter().any(|a| matches!(a, GameAction::SendThisIsYou { player, .. } if *player == CHARACTER))
    );
    assert!(actions.iter().any(|a| matches!(a, GameAction::FetchMap { map: m } if *m == map)));
    actions.clear();
    game.on_map_fetched(map, None, &mut actions);
    assert!(
        actions.iter().any(|a| matches!(a, GameAction::SpawnInstance { map: m } if *m == map)),
        "the fallback map loads and an instance spawn is requested"
    );
    actions.clear();
    game.on_instance_spawned(map, 1, &mut actions);
    assert!(
        actions.iter().any(|a| matches!(
            a,
            GameAction::SendToInstance { instance: 1, command: Command::NewClient(_, _) }
        )),
        "the waiting arrival reaches the new instance"
    );
}
