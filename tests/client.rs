use possync::game::{GameReadiness, GameState};
use possync::net_common::{
    Commands, NetBuilding, NetColour, NetPlayer, NetPlayerInfo, NetPosition, PositionMap, WorldMap,
};

fn colour() -> NetColour {
    NetColour { r: 9, g: 8, b: 7, a: 6 }
}

fn player(id: u8, x: i32, y: i32) -> NetPlayer {
    NetPlayer { position: NetPosition { x, y }, id, name: format!("p{}", id), colour: colour() }
}

fn position_of(s: &GameState, id: u8) -> Option<NetPosition> {
    s.players.iter().find(|p| p.id == id).map(|p| p.position)
}

fn joined_client() -> GameState {
    let mut s = GameState::default();
    s.apply_server_message(Commands::SendMap(WorldMap {
        buildings: vec![NetBuilding { position: NetPosition { x: 5, y: 5 }, width: 50, height: 20, colour: colour() }],
    }));
    s.apply_server_message(Commands::SendPlayerInfo(NetPlayerInfo {
        players: vec![player(0, 0, 0), player(3, 10, 10)],
        your_num: 3,
    }));
    s.apply_server_message(Commands::AllowClientReady(3));
    s
}

#[test]
fn join_sequence_makes_client_ready() {
    let s = joined_client();
    assert!(matches!(s.ready, GameReadiness::Ready));
    assert_eq!(s.own_player, 3);
    assert_eq!(s.buildings.len(), 1);
    assert_eq!(position_of(&s, 0), Some(NetPosition { x: 0, y: 0 }));
    assert_eq!(position_of(&s, 3), Some(NetPosition { x: 10, y: 10 }));
}

#[test]
fn moved_players_skip_own_prediction() {
    let mut s = joined_client();
    s.apply_server_message(Commands::MovedPlayers(vec![
        PositionMap { id: 0, pos: NetPosition { x: 4, y: 4 } },
        PositionMap { id: 3, pos: NetPosition { x: -50, y: -50 } },
        PositionMap { id: 77, pos: NetPosition { x: 1, y: 1 } },
    ]));
    assert_eq!(position_of(&s, 0), Some(NetPosition { x: 4, y: 4 }));
    assert_eq!(position_of(&s, 3), Some(NetPosition { x: 10, y: 10 }));
    assert_eq!(position_of(&s, 77), None);
}

#[test]
fn add_and_remove_players() {
    let mut s = joined_client();
    s.apply_server_message(Commands::AddPlayer(player(5, 1, 2)));
    assert_eq!(position_of(&s, 5), Some(NetPosition { x: 1, y: 2 }));
    // a record of the local player does not overwrite the prediction
    s.apply_server_message(Commands::AddPlayer(player(3, 99, 99)));
    assert_eq!(position_of(&s, 3), Some(NetPosition { x: 10, y: 10 }));
    s.apply_server_message(Commands::RemovePlayer(5));
    assert_eq!(position_of(&s, 5), None);
    assert_eq!(s.players.len(), 2);
}

#[test]
fn error_state_is_terminal() {
    let mut s = joined_client();
    s.ready = GameReadiness::Error(String::from("lost"));
    s.apply_server_message(Commands::RemovePlayer(0));
    s.apply_server_message(Commands::AllowClientReady(3));
    assert_eq!(s.players.len(), 2);
    assert!(matches!(s.ready, GameReadiness::Error(_)));
}

#[test]
fn server_bound_messages_change_nothing_on_client() {
    let mut s = joined_client();
    s.apply_server_message(Commands::Move(NetPosition { x: 1, y: 1 }));
    assert_eq!(position_of(&s, 3), Some(NetPosition { x: 10, y: 10 }));
}

#[test]
fn game_state_starts_loading_and_empty() {
    let s = GameState::default();
    assert!(matches!(s.ready, GameReadiness::Loading));
    assert_eq!(s.own_player, 0);
    assert!(s.players.is_empty() && s.buildings.is_empty());
}

#[test]
fn add_player_replaces_same_id() {
    let mut s = GameState::default();
    s.add_player(player(1, 0, 0));
    s.add_player(player(1, 5, 6));
    assert_eq!(s.players.len(), 1);
    assert_eq!(position_of(&s, 1), Some(NetPosition { x: 5, y: 6 }));
    assert!(s.remove_player(1));
    assert!(!s.remove_player(1));
    assert!(!s.move_player(1, NetPosition { x: 0, y: 0 }));
}

#[test]
fn position_equality_is_exact() {
    let a = NetPosition { x: 1, y: 2 };
    assert!(a.equals(&NetPosition { x: 1, y: 2 }));
    assert!(!a.equals(&NetPosition { x: 1, y: 3 }));
}
