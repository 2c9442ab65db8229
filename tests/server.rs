use possync::game::{set_error, GameReadiness, GameState};
use possync::net_common::{Commands, NetColour, NetPlayer, NetPosition, PositionMap, RegistrationInfo};
use possync::server::{Host, Outgoing, Session};
use possync::wire::encode;

fn colour() -> NetColour {
    NetColour { r: 1, g: 2, b: 3, a: 4 }
}

fn registration(name: &str) -> Commands {
    Commands::RegisterPlayer(RegistrationInfo { name: String::from(name), colour: colour() })
}

fn host_state() -> GameState {
    let mut s = GameState::default();
    s.spawn = NetPosition { x: 320, y: 240 };
    s.add_player(NetPlayer { position: s.spawn, id: 0, name: String::from("host"), colour: colour() });
    s
}

fn position_of(s: &GameState, id: u8) -> Option<NetPosition> {
    s.players.iter().find(|p| p.id == id).map(|p| p.position)
}

fn connect_and_register(h: &mut Host, s: &mut GameState, conn: u64, name: &str) -> Vec<Outgoing> {
    h.on_accepted(conn);
    h.handle_command(s, conn, registration(name))
}

#[test]
fn three_registrations_get_ids_one_two_three() {
    let mut h = Host::new();
    let mut s = host_state();
    connect_and_register(&mut h, &mut s, 10, "a");
    connect_and_register(&mut h, &mut s, 20, "b");
    connect_and_register(&mut h, &mut s, 30, "c");
    assert_eq!(
        h.sessions,
        vec![
            Session { conn: 10, id: Some(1) },
            Session { conn: 20, id: Some(2) },
            Session { conn: 30, id: Some(3) },
        ]
    );
    assert_eq!(h.next_id, 4);
    assert_eq!(s.players.len(), 4);
}

#[test]
fn ids_are_not_reused_after_disconnect() {
    let mut h = Host::new();
    let mut s = host_state();
    connect_and_register(&mut h, &mut s, 10, "a");
    h.on_disconnected(&mut s, 10);
    connect_and_register(&mut h, &mut s, 11, "b");
    assert_eq!(h.sessions, vec![Session { conn: 11, id: Some(2) }]);
}

#[test]
fn registration_sends_map_info_others_then_ready() {
    let mut h = Host::new();
    let mut s = host_state();
    h.on_accepted(10);
    h.on_accepted(20);
    let out = h.handle_command(&mut s, 20, registration("b"));
    assert_eq!(out.len(), 4);
    assert_eq!(out[0].to, 20);
    assert!(matches!(out[0].msg, Commands::SendMap(_)));
    assert_eq!(out[1].to, 20);
    match &out[1].msg {
        Commands::SendPlayerInfo(info) => {
            assert_eq!(info.your_num, 1);
            assert_eq!(info.players.len(), 2);
        },
        _ => panic!("expected player info"),
    }
    assert_eq!(out[2].to, 10);
    match &out[2].msg {
        Commands::AddPlayer(p) => {
            assert_eq!(p.id, 1);
            assert_eq!(p.name, "b");
            assert_eq!(p.position, NetPosition { x: 320, y: 240 });
        },
        _ => panic!("expected add player"),
    }
    assert_eq!(out[3].to, 20);
    assert!(matches!(out[3].msg, Commands::AllowClientReady(1)));
}

#[test]
fn second_registration_on_a_session_is_ignored() {
    let mut h = Host::new();
    let mut s = host_state();
    connect_and_register(&mut h, &mut s, 10, "a");
    let out = h.handle_command(&mut s, 10, registration("again"));
    assert!(out.is_empty());
    assert_eq!(h.next_id, 2);
}

#[test]
fn registration_from_unknown_connection_is_ignored() {
    let mut h = Host::new();
    let mut s = host_state();
    let out = h.handle_command(&mut s, 99, registration("ghost"));
    assert!(out.is_empty());
    assert_eq!(s.players.len(), 1);
}

#[test]
fn last_move_wins() {
    let mut h = Host::new();
    let mut s = host_state();
    connect_and_register(&mut h, &mut s, 10, "a");
    connect_and_register(&mut h, &mut s, 20, "b");
    h.handle_command(&mut s, 10, Commands::Move(NetPosition { x: 1, y: 1 }));
    h.handle_command(&mut s, 20, Commands::Move(NetPosition { x: 9, y: 9 }));
    h.handle_command(&mut s, 10, Commands::Move(NetPosition { x: 2, y: 3 }));
    assert_eq!(position_of(&s, 1), Some(NetPosition { x: 2, y: 3 }));
    assert_eq!(position_of(&s, 2), Some(NetPosition { x: 9, y: 9 }));
    assert_eq!(position_of(&s, 0), Some(NetPosition { x: 320, y: 240 }));
}

#[test]
fn move_before_registration_is_ignored() {
    let mut h = Host::new();
    let mut s = host_state();
    h.on_accepted(10);
    let out = h.handle_command(&mut s, 10, Commands::Move(NetPosition { x: 1, y: 1 }));
    assert!(out.is_empty());
    assert_eq!(position_of(&s, 0), Some(NetPosition { x: 320, y: 240 }));
}

#[test]
fn client_bound_messages_are_ignored_by_server() {
    let mut h = Host::new();
    let mut s = host_state();
    connect_and_register(&mut h, &mut s, 10, "a");
    let out = h.handle_command(&mut s, 10, Commands::RemovePlayer(0));
    assert!(out.is_empty());
    assert_eq!(s.players.len(), 2);
}

#[test]
fn disconnect_removes_player_and_notifies_others() {
    let mut h = Host::new();
    let mut s = host_state();
    connect_and_register(&mut h, &mut s, 10, "a");
    connect_and_register(&mut h, &mut s, 20, "b");
    connect_and_register(&mut h, &mut s, 30, "c");
    let out = h.on_disconnected(&mut s, 20);
    assert_eq!(position_of(&s, 2), None);
    assert_eq!(out.len(), 2);
    assert_eq!(out[0].to, 10);
    assert_eq!(out[1].to, 30);
    assert!(out.iter().all(|o| matches!(o.msg, Commands::RemovePlayer(2))));
    // a stray move on the closed connection is a no-op
    let out = h.handle_command(&mut s, 20, Commands::Move(NetPosition { x: 5, y: 5 }));
    assert!(out.is_empty());
    assert_eq!(position_of(&s, 2), None);
}

#[test]
fn disconnected_player_leaves_future_batches() {
    let mut h = Host::new();
    let mut s = host_state();
    connect_and_register(&mut h, &mut s, 10, "a");
    connect_and_register(&mut h, &mut s, 20, "b");
    h.on_tick(&s);
    h.handle_command(&mut s, 20, Commands::Move(NetPosition { x: 7, y: 7 }));
    h.on_disconnected(&mut s, 20);
    let out = h.on_tick(&s);
    assert!(out.is_empty());
}

#[test]
fn tick_sends_new_then_only_changed_players() {
    let mut h = Host::new();
    let mut s = host_state();
    connect_and_register(&mut h, &mut s, 10, "a");
    connect_and_register(&mut h, &mut s, 20, "b");
    let out = h.on_tick(&s);
    assert_eq!(out.len(), 2);
    match &out[0].msg {
        Commands::MovedPlayers(v) => {
            let mut ids: Vec<u8> = v.iter().map(|e| e.id).collect();
            ids.sort();
            assert_eq!(ids, vec![0, 1, 2]);
        },
        _ => panic!("expected a batch"),
    }
    // nothing moved: nothing is sent
    assert!(h.on_tick(&s).is_empty());
    h.handle_command(&mut s, 20, Commands::Move(NetPosition { x: 1, y: 2 }));
    // moving to the same position again is not a change
    h.handle_command(&mut s, 10, Commands::Move(NetPosition { x: 320, y: 240 }));
    let out = h.on_tick(&s);
    assert_eq!(out.iter().map(|o| o.to).collect::<Vec<u64>>(), vec![10, 20]);
    for o in &out {
        match &o.msg {
            Commands::MovedPlayers(v) => {
                assert_eq!(v, &vec![PositionMap { id: 2, pos: NetPosition { x: 1, y: 2 } }])
            },
            _ => panic!("expected a batch"),
        }
    }
}

#[test]
fn undecodable_frame_is_dropped() {
    let mut h = Host::new();
    let mut s = host_state();
    h.on_accepted(10);
    let out = h.on_message(&mut s, 10, &[0xde, 0xad]);
    assert!(out.is_empty());
    assert_eq!(h.sessions, vec![Session { conn: 10, id: None }]);
    let out = h.on_message(&mut s, 10, &encode(&registration("a")));
    assert_eq!(out.len(), 3);
    assert_eq!(h.sessions, vec![Session { conn: 10, id: Some(1) }]);
}

#[test]
fn accepting_same_connection_twice_keeps_one_session() {
    let mut h = Host::new();
    h.on_accepted(10);
    h.on_accepted(10);
    assert_eq!(h.sessions.len(), 1);
}

#[test]
fn ids_run_out_after_255_registrations() {
    let mut h = Host::new();
    let mut s = host_state();
    for conn in 1..=255u64 {
        connect_and_register(&mut h, &mut s, conn, "p");
    }
    assert_eq!(h.next_id, 256);
    let out = connect_and_register(&mut h, &mut s, 1000, "late");
    assert!(out.is_empty());
    assert_eq!(h.sessions.last(), Some(&Session { conn: 1000, id: None }));
}

#[test]
fn set_error_marks_state() {
    let mut s = host_state();
    set_error(&mut s, String::from("bind failed"));
    assert!(matches!(&s.ready, GameReadiness::Error(e) if e == "bind failed"));
    assert_eq!(s.players.len(), 1);
}
