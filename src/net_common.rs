use vstd::prelude::*;

verus! {

/// A world position in whole world units.
#[derive(Clone, Copy, Debug, PartialEq, Eq, Structural)]
pub struct NetPosition {
    pub x: i32,
    pub y: i32,
}

impl NetPosition {
    /// Exact equality of both coordinates.
    pub fn equals(&self, other: &NetPosition) -> (r: bool)
        ensures
            r == (*self == *other),
    {
        self.x == other.x && self.y == other.y
    }
}

/// A colour as four channels. Each channel holds the raw bits of a
/// single-precision value: the core carries colours through and never
/// interprets them.
#[derive(Clone, Copy, Debug, PartialEq, Eq, Structural)]
pub struct NetColour {
    pub r: u32,
    pub g: u32,
    pub b: u32,
    pub a: u32,
}

/// A static obstacle: `position` is its reference corner, `width` grows
/// along x and `height` along y.
#[derive(Clone, Copy, Debug, PartialEq, Eq, Structural)]
pub struct NetBuilding {
    pub position: NetPosition,
    pub width: u32,
    pub height: u32,
    pub colour: NetColour,
}

/// A player as it is shared and sent over the network.
#[derive(Clone, Debug)]
pub struct NetPlayer {
    pub position: NetPosition,
    pub id: u8,
    pub name: String,
    pub colour: NetColour,
}

/// The mathematical value of a [`NetPlayer`].
pub struct PlayerView {
    pub position: NetPosition,
    pub id: u8,
    pub name: Seq<char>,
    pub colour: NetColour,
}

impl View for NetPlayer {
    type V = PlayerView;

    open spec fn view(&self) -> PlayerView {
        PlayerView { position: self.position, id: self.id, name: self.name@, colour: self.colour }
    }
}

impl NetPlayer {
    /// A copy with the same view.
    pub fn duplicate(&self) -> (r: NetPlayer)
        ensures
            r@ == self@,
    {
        NetPlayer {
            position: self.position,
            id: self.id,
            name: self.name.clone(),
            colour: self.colour,
        }
    }
}

/// The views of a sequence of players.
pub open spec fn players_view(s: Seq<NetPlayer>) -> Seq<PlayerView> {
    s.map_values(|p: NetPlayer| p@)
}

/// Initial information for a newly registered client: every player and the
/// id that was assigned to it.
#[derive(Clone, Debug)]
pub struct NetPlayerInfo {
    pub players: Vec<NetPlayer>,
    pub your_num: u8,
}

/// The static map sent to clients.
#[derive(Clone, Debug)]
pub struct WorldMap {
    pub buildings: Vec<NetBuilding>,
}

/// A player id with its position.
#[derive(Clone, Copy, Debug, PartialEq, Eq, Structural)]
pub struct PositionMap {
    pub id: u8,
    pub pos: NetPosition,
}

/// What a client sends to register.
#[derive(Clone, Debug)]
pub struct RegistrationInfo {
    pub name: String,
    pub colour: NetColour,
}

/// One message of the wire protocol.
#[derive(Clone, Debug)]
pub enum Commands {
    RegisterPlayer(RegistrationInfo),
    Move(NetPosition),
    MovedPlayers(Vec<PositionMap>),
    SendMap(WorldMap),
    SendPlayerInfo(NetPlayerInfo),
    AddPlayer(NetPlayer),
    RemovePlayer(u8),
    AllowClientReady(u8),
}

/// The mathematical value of a [`Commands`] message.
pub enum CommandsView {
    RegisterPlayer { name: Seq<char>, colour: NetColour },
    Move(NetPosition),
    MovedPlayers(Seq<PositionMap>),
    SendMap(Seq<NetBuilding>),
    SendPlayerInfo { players: Seq<PlayerView>, your_num: u8 },
    AddPlayer(PlayerView),
    RemovePlayer(u8),
    AllowClientReady(u8),
}

impl View for Commands {
    type V = CommandsView;

    open spec fn view(&self) -> CommandsView {
        match self {
            Commands::RegisterPlayer(info) => CommandsView::RegisterPlayer {
                name: info.name@,
                colour: info.colour,
            },
            Commands::Move(p) => CommandsView::Move(*p),
            Commands::MovedPlayers(v) => CommandsView::MovedPlayers(v@),
            Commands::SendMap(m) => CommandsView::SendMap(m.buildings@),
            Commands::SendPlayerInfo(info) => CommandsView::SendPlayerInfo {
                players: players_view(info.players@),
                your_num: info.your_num,
            },
            Commands::AddPlayer(p) => CommandsView::AddPlayer(p@),
            Commands::RemovePlayer(id) => CommandsView::RemovePlayer(*id),
            Commands::AllowClientReady(id) => CommandsView::AllowClientReady(*id),
        }
    }
}

/// What a client needs to join a game.
#[derive(Clone, Debug)]
pub struct ClientSettings {
    pub name: String,
    pub colour: NetColour,
    pub ip: String,
    pub port: u16,
}

} // verus!
