use possync::net_common::{
    Commands, NetBuilding, NetColour, NetPlayer, NetPlayerInfo, NetPosition, PositionMap,
    RegistrationInfo, WorldMap,
};
use possync::wire::{decode, encode};

fn colour() -> NetColour {
    NetColour { r: 0x3f80_0000, g: 0x3f00_0000, b: 7, a: u32::MAX }
}

fn player(id: u8, name: &str) -> NetPlayer {
    NetPlayer { position: NetPosition { x: -12, y: 400 }, id, name: String::from(name), colour: colour() }
}

fn same_player(a: &NetPlayer, b: &NetPlayer) -> bool {
    a.position == b.position && a.id == b.id && a.name == b.name && a.colour == b.colour
}

fn round_trip(c: &Commands) -> Commands {
    decode(&encode(c)).expect("a well-formed message decodes")
}

#[test]
fn register_player_round_trips() {
    let c = Commands::RegisterPlayer(RegistrationInfo { name: String::from("Zoë ✓"), colour: colour() });
    match round_trip(&c) {
        Commands::RegisterPlayer(info) => {
            assert_eq!(info.name, "Zoë ✓");
            assert_eq!(info.colour, colour());
        },
        _ => panic!("wrong variant"),
    }
}

#[test]
fn move_round_trips() {
    let p = NetPosition { x: i32::MIN, y: i32::MAX };
    match round_trip(&Commands::Move(p)) {
        Commands::Move(q) => assert_eq!(q, p),
        _ => panic!("wrong variant"),
    }
}

#[test]
fn moved_players_round_trips() {
    let v = vec![
        PositionMap { id: 1, pos: NetPosition { x: 1, y: 2 } },
        PositionMap { id: 255, pos: NetPosition { x: -3, y: 0 } },
    ];
    match round_trip(&Commands::MovedPlayers(v.clone())) {
        Commands::MovedPlayers(w) => assert_eq!(w, v),
        _ => panic!("wrong variant"),
    }
}

#[test]
fn send_map_round_trips() {
    let bs = vec![
        NetBuilding { position: NetPosition { x: 5, y: 5 }, width: 50, height: 20, colour: colour() },
        NetBuilding { position: NetPosition { x: 798, y: 15 }, width: 80, height: 10, colour: colour() },
    ];
    match round_trip(&Commands::SendMap(WorldMap { buildings: bs.clone() })) {
        Commands::SendMap(m) => assert_eq!(m.buildings, bs),
        _ => panic!("wrong variant"),
    }
}

#[test]
fn send_player_info_round_trips() {
    let ps = vec![player(0, "host"), player(3, ""), player(9, "ñame")];
    let c = Commands::SendPlayerInfo(NetPlayerInfo { players: ps.clone(), your_num: 3 });
    match round_trip(&c) {
        Commands::SendPlayerInfo(info) => {
            assert_eq!(info.your_num, 3);
            assert_eq!(info.players.len(), 3);
            for (a, b) in info.players.iter().zip(ps.iter()) {
                assert!(same_player(a, b));
            }
        },
        _ => panic!("wrong variant"),
    }
}

#[test]
fn add_player_round_trips() {
    match round_trip(&Commands::AddPlayer(player(42, "new one"))) {
        Commands::AddPlayer(p) => assert!(same_player(&p, &player(42, "new one"))),
        _ => panic!("wrong variant"),
    }
}

#[test]
fn remove_player_and_ready_round_trip() {
    match round_trip(&Commands::RemovePlayer(17)) {
        Commands::RemovePlayer(id) => assert_eq!(id, 17),
        _ => panic!("wrong variant"),
    }
    match round_trip(&Commands::AllowClientReady(200)) {
        Commands::AllowClientReady(id) => assert_eq!(id, 200),
        _ => panic!("wrong variant"),
    }
}

#[test]
fn encoding_layout_is_little_endian() {
    assert_eq!(encode(&Commands::RemovePlayer(9)), vec![6, 0, 0, 0, 9]);
    assert_eq!(
        encode(&Commands::Move(NetPosition { x: -1, y: 258 })),
        vec![1, 0, 0, 0, 0xff, 0xff, 0xff, 0xff, 2, 1, 0, 0]
    );
    let c = Commands::RegisterPlayer(RegistrationInfo { name: String::from("ab"), colour: NetColour { r: 1, g: 2, b: 3, a: 4 } });
    assert_eq!(
        encode(&c),
        vec![0, 0, 0, 0, 2, 0, 0, 0, 0, 0, 0, 0, b'a', b'b', 1, 0, 0, 0, 2, 0, 0, 0, 3, 0, 0, 0, 4, 0, 0, 0]
    );
}

#[test]
fn malformed_frames_are_rejected() {
    assert!(decode(&[]).is_none());
    assert!(decode(&[1, 0, 0]).is_none());
    // unknown variant
    assert!(decode(&[8, 0, 0, 0, 1]).is_none());
    // truncated move
    assert!(decode(&[1, 0, 0, 0, 1, 2, 3]).is_none());
    // trailing byte
    assert!(decode(&[6, 0, 0, 0, 9, 9]).is_none());
    // list that claims more entries than there are bytes
    assert!(decode(&[2, 0, 0, 0, 5, 0, 0, 0, 0, 0, 0, 0]).is_none());
}

#[test]
fn invalid_utf8_name_is_rejected() {
    let mut bytes = encode(&Commands::RegisterPlayer(RegistrationInfo { name: String::from("ab"), colour: colour() }));
    bytes[12] = 0xff;
    assert!(decode(&bytes).is_none());
}
