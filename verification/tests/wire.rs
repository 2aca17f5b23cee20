use ironvein::shared::{ClientToServerMsg, Coord, GameConfig, PlayerId, Position, ServerToClientMsg};
use serde::de::{Deserialize, Deserializer, EnumAccess, Error, SeqAccess, VariantAccess, Visitor};
use serde::ser::{Serialize, SerializeStruct, SerializeStructVariant, SerializeTupleVariant, Serializer};

fn coord(value: f32) -> Coord {
    Coord { bits: value.to_bits() }
}

fn place(x: f32, y: f32) -> Position {
    Position { x: coord(x), y: coord(y) }
}

// --- The messages with plain floats, described to serde by hand ---

struct RawId(u64);

impl Serialize for RawId {
    fn serialize<S: Serializer>(&self, serializer: S) -> Result<S::Ok, S::Error> {
        serializer.serialize_newtype_struct("PlayerId", &self.0)
    }
}

struct RawPosition {
    x: f32,
    y: f32,
}

impl Serialize for RawPosition {
    fn serialize<S: Serializer>(&self, serializer: S) -> Result<S::Ok, S::Error> {
        let mut s = serializer.serialize_struct("Position", 2)?;
        s.serialize_field("x", &self.x)?;
        s.serialize_field("y", &self.y)?;
        s.end()
    }
}

struct RawConfig {
    map_width: u32,
    map_height: u32,
}

impl Serialize for RawConfig {
    fn serialize<S: Serializer>(&self, serializer: S) -> Result<S::Ok, S::Error> {
        let mut s = serializer.serialize_struct("GameConfig", 2)?;
        s.serialize_field("map_width", &self.map_width)?;
        s.serialize_field("map_height", &self.map_height)?;
        s.end()
    }
}

enum RawServerMsg {
    Welcome(RawId, RawConfig),
    WorldStateSnapshot(Vec<(RawId, RawPosition)>),
    PlayerJoined(RawId, RawPosition),
    PlayerLeft(RawId),
    Pong,
}

impl Serialize for RawServerMsg {
    fn serialize<S: Serializer>(&self, serializer: S) -> Result<S::Ok, S::Error> {
        let name = "ServerToClientMsg";
        match self {
            RawServerMsg::Welcome(player_id, config) => {
                let mut s = serializer.serialize_struct_variant(name, 0, "Welcome", 2)?;
                s.serialize_field("player_id", player_id)?;
                s.serialize_field("config", config)?;
                s.end()
            }
            RawServerMsg::WorldStateSnapshot(players) => {
                serializer.serialize_newtype_variant(name, 1, "WorldStateSnapshot", players)
            }
            RawServerMsg::PlayerJoined(player_id, position) => {
                let mut s = serializer.serialize_tuple_variant(name, 2, "PlayerJoined", 2)?;
                s.serialize_field(player_id)?;
                s.serialize_field(position)?;
                s.end()
            }
            RawServerMsg::PlayerLeft(player_id) => {
                serializer.serialize_newtype_variant(name, 3, "PlayerLeft", player_id)
            }
            RawServerMsg::Pong => serializer.serialize_unit_variant(name, 4, "Pong"),
        }
    }
}

enum RawClientMsg {
    ClickPosition(f32, f32),
    Ping,
}

impl Serialize for RawClientMsg {
    fn serialize<S: Serializer>(&self, serializer: S) -> Result<S::Ok, S::Error> {
        let name = "ClientToServerMsg";
        match self {
            RawClientMsg::ClickPosition(x, y) => {
                let mut s = serializer.serialize_struct_variant(name, 0, "ClickPosition", 2)?;
                s.serialize_field("x", x)?;
                s.serialize_field("y", y)?;
                s.end()
            }
            RawClientMsg::Ping => serializer.serialize_unit_variant(name, 1, "Ping"),
        }
    }
}

struct ClickFields;

impl<'de> Visitor<'de> for ClickFields {
    type Value = (f32, f32);

    fn expecting(&self, f: &mut std::fmt::Formatter) -> std::fmt::Result {
        f.write_str("two coordinates")
    }

    fn visit_seq<A: SeqAccess<'de>>(self, mut seq: A) -> Result<(f32, f32), A::Error> {
        let x = seq.next_element()?.ok_or_else(|| A::Error::custom("no x"))?;
        let y = seq.next_element()?.ok_or_else(|| A::Error::custom("no y"))?;
        Ok((x, y))
    }
}

struct ClientMsgVisitor;

impl<'de> Visitor<'de> for ClientMsgVisitor {
    type Value = RawClientMsg;

    fn expecting(&self, f: &mut std::fmt::Formatter) -> std::fmt::Result {
        f.write_str("a message to the server")
    }

    fn visit_enum<A: EnumAccess<'de>>(self, data: A) -> Result<RawClientMsg, A::Error> {
        let (index, variant): (u32, A::Variant) = data.variant()?;
        match index {
            0 => {
                let (x, y) = variant.struct_variant(&["x", "y"], ClickFields)?;
                Ok(RawClientMsg::ClickPosition(x, y))
            }
            1 => {
                variant.unit_variant()?;
                Ok(RawClientMsg::Ping)
            }
            _ => Err(A::Error::custom("no such variant")),
        }
    }
}

impl<'de> Deserialize<'de> for RawClientMsg {
    fn deserialize<D: Deserializer<'de>>(deserializer: D) -> Result<Self, D::Error> {
        deserializer.deserialize_enum(
            "ClientToServerMsg",
            &["ClickPosition", "Ping"],
            ClientMsgVisitor,
        )
    }
}

// --- Writing ---

#[test]
fn a_click_is_its_number_and_two_floats() {
    let msg = ClientToServerMsg::ClickPosition { x: coord(1.0), y: coord(-2.5) };
    assert_eq!(
        msg.to_bytes(),
        vec![0, 0, 0, 0, 0x00, 0x00, 0x80, 0x3f, 0x00, 0x00, 0x20, 0xc0]
    );
}

#[test]
fn ping_is_its_number() {
    assert_eq!(ClientToServerMsg::Ping.to_bytes(), vec![1, 0, 0, 0]);
}

#[test]
fn server_messages_have_these_bytes() {
    let config = GameConfig { map_width: 800, map_height: 600 };
    let welcome = ServerToClientMsg::Welcome { player_id: PlayerId(0x0102_0304_0506_0708), config };
    assert_eq!(
        welcome.to_bytes(),
        vec![0, 0, 0, 0, 8, 7, 6, 5, 4, 3, 2, 1, 0x20, 3, 0, 0, 0x58, 2, 0, 0]
    );
    let snapshot = ServerToClientMsg::WorldStateSnapshot(vec![
        (PlayerId(1), place(0.0, 1.0)),
        (PlayerId(2), place(-1.0, 2.0)),
    ]);
    assert_eq!(
        snapshot.to_bytes(),
        vec![
            1, 0, 0, 0, 2, 0, 0, 0, 0, 0, 0, 0, // two players
            1, 0, 0, 0, 0, 0, 0, 0, 0, 0, 0, 0, 0, 0, 0x80, 0x3f, // the first
            2, 0, 0, 0, 0, 0, 0, 0, 0, 0, 0x80, 0xbf, 0, 0, 0, 0x40, // the second
        ]
    );
    assert_eq!(
        ServerToClientMsg::WorldStateSnapshot(vec![]).to_bytes(),
        vec![1, 0, 0, 0, 0, 0, 0, 0, 0, 0, 0, 0]
    );
    assert_eq!(
        ServerToClientMsg::PlayerJoined(PlayerId(3), place(1.0, 0.0)).to_bytes(),
        vec![2, 0, 0, 0, 3, 0, 0, 0, 0, 0, 0, 0, 0, 0, 0x80, 0x3f, 0, 0, 0, 0]
    );
    assert_eq!(
        ServerToClientMsg::PlayerLeft(PlayerId(u64::MAX)).to_bytes(),
        vec![3, 0, 0, 0, 255, 255, 255, 255, 255, 255, 255, 255]
    );
    assert_eq!(ServerToClientMsg::Pong.to_bytes(), vec![4, 0, 0, 0]);
}

#[test]
fn client_messages_are_written_as_an_enum_of_floats_is() {
    for (x, y) in [(0.0f32, -0.0f32), (1.5, -273.25), (f32::MAX, f32::INFINITY), (0.1, 1e-40)] {
        assert_eq!(
            ClientToServerMsg::ClickPosition { x: coord(x), y: coord(y) }.to_bytes(),
            bincode::serialize(&RawClientMsg::ClickPosition(x, y)).unwrap()
        );
    }
    assert_eq!(
        ClientToServerMsg::Ping.to_bytes(),
        bincode::serialize(&RawClientMsg::Ping).unwrap()
    );
}

#[test]
fn server_messages_are_written_as_an_enum_of_floats_is() {
    let config = GameConfig { map_width: 800, map_height: 600 };
    let raw_config = RawConfig { map_width: 800, map_height: 600 };
    assert_eq!(
        ServerToClientMsg::Welcome { player_id: PlayerId(77), config }.to_bytes(),
        bincode::serialize(&RawServerMsg::Welcome(RawId(77), raw_config)).unwrap()
    );
    let players = vec![(PlayerId(5), place(1.25, -3.5)), (PlayerId(u64::MAX), place(0.1, 1e9))];
    let raw_players = vec![
        (RawId(5), RawPosition { x: 1.25, y: -3.5 }),
        (RawId(u64::MAX), RawPosition { x: 0.1, y: 1e9 }),
    ];
    assert_eq!(
        ServerToClientMsg::WorldStateSnapshot(players).to_bytes(),
        bincode::serialize(&RawServerMsg::WorldStateSnapshot(raw_players)).unwrap()
    );
    assert_eq!(
        ServerToClientMsg::PlayerJoined(PlayerId(6), place(2.0, 3.0)).to_bytes(),
        bincode::serialize(&RawServerMsg::PlayerJoined(
            RawId(6),
            RawPosition { x: 2.0, y: 3.0 }
        ))
        .unwrap()
    );
    assert_eq!(
        ServerToClientMsg::PlayerLeft(PlayerId(9)).to_bytes(),
        bincode::serialize(&RawServerMsg::PlayerLeft(RawId(9))).unwrap()
    );
    assert_eq!(
        ServerToClientMsg::Pong.to_bytes(),
        bincode::serialize(&RawServerMsg::Pong).unwrap()
    );
}

// --- Reading ---

fn same_client_msg(a: &Option<ClientToServerMsg>, b: &Option<RawClientMsg>) -> bool {
    match (a, b) {
        (None, None) => true,
        (
            Some(ClientToServerMsg::ClickPosition { x, y }),
            Some(RawClientMsg::ClickPosition(rx, ry)),
        ) => x.bits == rx.to_bits() && y.bits == ry.to_bits(),
        (Some(ClientToServerMsg::Ping), Some(RawClientMsg::Ping)) => true,
        _ => false,
    }
}

#[test]
fn client_messages_are_read_as_an_enum_of_floats_is() {
    let full: [u8; 16] = [0, 0, 0, 0, 1, 2, 3, 4, 5, 6, 7, 8, 9, 10, 11, 12];
    for tag in 0..4u8 {
        for odd in [0u8, 1] {
            for len in 0..=16 {
                let mut bytes = full;
                bytes[0] = tag;
                bytes[3] = odd;
                let ours = ClientToServerMsg::from_bytes(&bytes[..len]);
                let theirs = bincode::deserialize::<RawClientMsg>(&bytes[..len]).ok();
                assert!(same_client_msg(&ours, &theirs), "{tag} {odd} {len}");
            }
        }
    }
}

#[test]
fn client_messages_come_back() {
    let click = ClientToServerMsg::ClickPosition { x: coord(12.5), y: coord(-7.0) };
    match ClientToServerMsg::from_bytes(&click.to_bytes()) {
        Some(ClientToServerMsg::ClickPosition { x, y }) => {
            assert_eq!(x.bits, 12.5f32.to_bits());
            assert_eq!(y.bits, (-7.0f32).to_bits());
        }
        other => panic!("{other:?}"),
    }
    assert!(matches!(
        ClientToServerMsg::from_bytes(&ClientToServerMsg::Ping.to_bytes()),
        Some(ClientToServerMsg::Ping)
    ));
}

#[test]
fn what_follows_a_message_is_not_read() {
    assert!(matches!(
        ClientToServerMsg::from_bytes(&[1, 0, 0, 0, 99, 98]),
        Some(ClientToServerMsg::Ping)
    ));
    assert!(matches!(
        ServerToClientMsg::from_bytes(&[3, 0, 0, 0, 7, 0, 0, 0, 0, 0, 0, 0, 1]),
        Some(ServerToClientMsg::PlayerLeft(PlayerId(7)))
    ));
}

#[test]
fn server_messages_come_back() {
    let config = GameConfig { map_width: 800, map_height: 600 };
    let welcome = ServerToClientMsg::Welcome { player_id: PlayerId(42), config };
    assert!(matches!(
        ServerToClientMsg::from_bytes(&welcome.to_bytes()),
        Some(ServerToClientMsg::Welcome {
            player_id: PlayerId(42),
            config: GameConfig { map_width: 800, map_height: 600 },
        })
    ));
    let snapshot = ServerToClientMsg::WorldStateSnapshot(vec![
        (PlayerId(1), place(1.0, 2.0)),
        (PlayerId(2), place(3.0, 4.0)),
        (PlayerId(1), place(5.0, 6.0)),
    ]);
    match ServerToClientMsg::from_bytes(&snapshot.to_bytes()) {
        Some(ServerToClientMsg::WorldStateSnapshot(players)) => {
            assert_eq!(
                players,
                vec![
                    (PlayerId(1), place(1.0, 2.0)),
                    (PlayerId(2), place(3.0, 4.0)),
                    (PlayerId(1), place(5.0, 6.0)),
                ]
            );
        }
        other => panic!("{other:?}"),
    }
    match ServerToClientMsg::from_bytes(
        &ServerToClientMsg::PlayerJoined(PlayerId(8), place(-1.0, 0.5)).to_bytes(),
    ) {
        Some(ServerToClientMsg::PlayerJoined(id, at)) => {
            assert_eq!(id, PlayerId(8));
            assert_eq!(at, place(-1.0, 0.5));
        }
        other => panic!("{other:?}"),
    }
    assert!(matches!(
        ServerToClientMsg::from_bytes(&ServerToClientMsg::Pong.to_bytes()),
        Some(ServerToClientMsg::Pong)
    ));
}

#[test]
fn cut_off_and_unknown_messages_are_refused() {
    let snapshot = ServerToClientMsg::WorldStateSnapshot(vec![(PlayerId(1), place(1.0, 2.0))]);
    let bytes = snapshot.to_bytes();
    for len in 0..bytes.len() {
        assert!(ServerToClientMsg::from_bytes(&bytes[..len]).is_none(), "{len}");
    }
    let joined = ServerToClientMsg::PlayerJoined(PlayerId(8), place(-1.0, 0.5)).to_bytes();
    assert!(ServerToClientMsg::from_bytes(&joined[..19]).is_none());
    let config = GameConfig { map_width: 1, map_height: 2 };
    let welcome = ServerToClientMsg::Welcome { player_id: PlayerId(1), config }.to_bytes();
    assert!(ServerToClientMsg::from_bytes(&welcome[..19]).is_none());
    let left = ServerToClientMsg::PlayerLeft(PlayerId(8)).to_bytes();
    assert!(ServerToClientMsg::from_bytes(&left[..11]).is_none());
    assert!(ServerToClientMsg::from_bytes(&[5, 0, 0, 0]).is_none());
    assert!(ServerToClientMsg::from_bytes(&[0, 0, 0, 1]).is_none());
    assert!(ClientToServerMsg::from_bytes(&[2, 0, 0, 0]).is_none());
    // A length that no message could have.
    let mut huge = vec![1, 0, 0, 0, 255, 255, 255, 255, 255, 255, 255, 255];
    huge.extend_from_slice(&[0; 64]);
    assert!(ServerToClientMsg::from_bytes(&huge).is_none());
}

#[test]
fn different_messages_have_different_bytes() {
    let here = ClientToServerMsg::ClickPosition { x: coord(1.0), y: coord(2.0) };
    let there = ClientToServerMsg::ClickPosition { x: coord(2.0), y: coord(1.0) };
    assert_ne!(here.to_bytes(), there.to_bytes());
    let joined = ServerToClientMsg::PlayerJoined(PlayerId(1), place(1.0, 2.0));
    let listed = ServerToClientMsg::WorldStateSnapshot(vec![(PlayerId(1), place(1.0, 2.0))]);
    assert_ne!(joined.to_bytes(), listed.to_bytes());
}
