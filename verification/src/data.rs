//! Plain data records: player records as persisted, map data, the stat
//! block, and the management representations reported to the coordinator.
//!
//! Identities that were uuids in the backend are carried as their 128-bit
//! value; coordinates are fixed-point nano-units.

use vstd::prelude::*;
use crate::geometry::POS_LIMIT_NANO;
use crate::rng::random_skin;

verus! {

/// The map every defaulted player starts on.
pub const DEFAULT_MAP_ID: u128 = 0x42424242_4242_4242_4242_424242424242;

/// A character's base stat block.
#[derive(Clone, Copy, Debug, PartialEq, Eq, Structural)]
pub struct Stats {
    pub level: u64,
    pub strength: u64,
    pub dexterity: u64,
    pub constitution: u64,
    pub intelligence: u64,
    pub precision: u64,
    pub wisdom: u64,
}

/// A position within a named map, in nano-units.
#[derive(Clone, Copy, Debug)]
pub struct Position {
    pub map: u128,
    pub x: i64,
    pub y: i64,
}

/// Everything needed for a player to go in game.
#[derive(Clone, Debug)]
pub struct Player {
    pub id: u128,
    pub name: String,
    pub skin: u64,
    pub current_pv: u64,
    pub position: Position,
    pub experience: u64,
    pub gold: u64,
    pub guild: String,
    pub stats: Stats,
}

impl Player {
    pub fn get_id(&self) -> (r: u128)
        ensures
            r == self.id,
    {
        self.id
    }

    pub fn get_map_position(&self) -> (r: u128)
        ensures
            r == self.position.map,
    {
        self.position.map
    }

    pub fn get_name(&self) -> (r: &String)
        ensures
            r@ == self.name@,
    {
        &self.name
    }

    /// The canned player used when the resource backend fails and the
    /// default fallback is on: level-1 stats, 100 health, the default map's
    /// origin, and a name made of the uuid.
    pub fn default_player(uuid: u128) -> (r: Player)
        ensures
            r.id == uuid,
            r.name@ == spec_player_name(uuid),
            r.current_pv == 100,
            r.position.map == DEFAULT_MAP_ID,
            r.position.x == 0,
            r.position.y == 0,
            r.experience == 0,
            r.gold == 0,
            r.guild@ == Seq::<char>::empty(),
            r.stats == (Stats {
                level: 1,
                strength: 2,
                dexterity: 3,
                constitution: 4,
                intelligence: 5,
                precision: 6,
                wisdom: 7,
            }),
    {
        let stats = Stats {
            level: 1,
            strength: 2,
            dexterity: 3,
            constitution: 4,
            intelligence: 5,
            precision: 6,
            wisdom: 7,
        };
        let position = Position { map: DEFAULT_MAP_ID, x: 0, y: 0 };
        let mut name = player_name_prefix();
        let uuid_str = format_uuid(uuid);
        name.append(uuid_str.as_str());
        Player {
            id: uuid,
            name,
            skin: random_skin(),
            current_pv: 100,
            position,
            experience: 0,
            gold: 0,
            guild: String::new(),
            stats,
        }
    }
}

/// The name a defaulted player gets: the word Player, a space, the uuid.
pub open spec fn spec_player_name(uuid: u128) -> Seq<char> {
    "Player "@ + spec_uuid_str(uuid)
}

fn player_name_prefix() -> (r: String)
    ensures
        r@ == "Player "@,
{
    let s: &str = "Player ";
    s.to_owned()
}

/// The canonical hyphenated lower-case hex form of a 128-bit uuid.
pub open spec fn spec_uuid_str(u: u128) -> Seq<char> {
    spec_hex(u / 0x1_0000_0000_0000_0000_0000_0000, 8) + seq!['-'] + spec_hex(
        (u / 0x1_0000_0000_0000_0000_0000) % 0x1_0000,
        4,
    ) + seq!['-'] + spec_hex((u / 0x1_0000_0000_0000_0000) % 0x1_0000, 4) + seq!['-']
        + spec_hex((u / 0x1_0000_0000_0000) % 0x1_0000, 4) + seq!['-'] + spec_hex(
        u % 0x1_0000_0000_0000,
        12,
    )
}

/// `n` hex digits of `u`, most significant first.
pub open spec fn spec_hex(u: u128, n: nat) -> Seq<char>
    decreases n,
{
    if n == 0 {
        Seq::<char>::empty()
    } else {
        spec_hex(u / 16, (n - 1) as nat) + seq![spec_hex_digit(u % 16)]
    }
}

pub open spec fn spec_hex_digit(d: u128) -> char {
    if d == 0 {
        '0'
    } else if d == 1 {
        '1'
    } else if d == 2 {
        '2'
    } else if d == 3 {
        '3'
    } else if d == 4 {
        '4'
    } else if d == 5 {
        '5'
    } else if d == 6 {
        '6'
    } else if d == 7 {
        '7'
    } else if d == 8 {
        '8'
    } else if d == 9 {
        '9'
    } else if d == 10 {
        'a'
    } else if d == 11 {
        'b'
    } else if d == 12 {
        'c'
    } else if d == 13 {
        'd'
    } else if d == 14 {
        'e'
    } else {
        'f'
    }
}

fn hex_digit_str(d: u128) -> (r: &'static str)
    requires
        d < 16,
    ensures
        r@ == seq![spec_hex_digit(d)],
{
    proof {
        reveal_strlit("0");
        reveal_strlit("1");
        reveal_strlit("2");
        reveal_strlit("3");
        reveal_strlit("4");
        reveal_strlit("5");
        reveal_strlit("6");
        reveal_strlit("7");
        reveal_strlit("8");
        reveal_strlit("9");
        reveal_strlit("a");
        reveal_strlit("b");
        reveal_strlit("c");
        reveal_strlit("d");
        reveal_strlit("e");
        reveal_strlit("f");
    }
    if d == 0 {
        "0"
    } else if d == 1 {
        "1"
    } else if d == 2 {
        "2"
    } else if d == 3 {
        "3"
    } else if d == 4 {
        "4"
    } else if d == 5 {
        "5"
    } else if d == 6 {
        "6"
    } else if d == 7 {
        "7"
    } else if d == 8 {
        "8"
    } else if d == 9 {
        "9"
    } else if d == 10 {
        "a"
    } else if d == 11 {
        "b"
    } else if d == 12 {
        "c"
    } else if d == 13 {
        "d"
    } else if d == 14 {
        "e"
    } else {
        "f"
    }
}

fn hex(u: u128, n: u32) -> (r: String)
    requires
        n <= 32,
    ensures
        r@ == spec_hex(u, n as nat),
    decreases n,
{
    if n == 0 {
        String::new()
    } else {
        let mut s = hex(u / 16, n - 1);
        s.append(hex_digit_str(u % 16));
        s
    }
}

fn hyphen_str() -> (r: &'static str)
    ensures
        r@ == seq!['-'],
{
    proof {
        reveal_strlit("-");
    }
    "-"
}

/// Formats a 128-bit uuid in its canonical hyphenated form.
pub fn format_uuid(u: u128) -> (r: String)
    ensures
        r@ == spec_uuid_str(u),
{
    let mut s = hex(u / 0x1_0000_0000_0000_0000_0000_0000, 8);
    s.append(hyphen_str());
    let part2 = hex((u / 0x1_0000_0000_0000_0000_0000) % 0x1_0000, 4);
    s.append(part2.as_str());
    s.append(hyphen_str());
    let part3 = hex((u / 0x1_0000_0000_0000_0000) % 0x1_0000, 4);
    s.append(part3.as_str());
    s.append(hyphen_str());
    let part4 = hex((u / 0x1_0000_0000_0000) % 0x1_0000, 4);
    s.append(part4.as_str());
    s.append(hyphen_str());
    let part5 = hex(u % 0x1_0000_0000_0000, 12);
    s.append(part5.as_str());
    s
}

/// Map data as fetched from the backend: a grid of passable tiles.
#[derive(Clone, Debug)]
pub struct GameMap {
    uuid: u128,
    name: String,
    row_size: u16,
    number_row: u16,
    tiles: Vec<bool>,
}

impl GameMap {
    /// A well-formed map holds exactly one tile per grid cell.
    pub open spec fn wf(self) -> bool {
        self.spec_tiles().len() == self.spec_row_size() as int * self.spec_number_row() as int
    }

    pub closed spec fn spec_id(self) -> u128 {
        self.uuid
    }

    pub closed spec fn spec_name(self) -> Seq<char> {
        self.name@
    }

    pub closed spec fn spec_row_size(self) -> u16 {
        self.row_size
    }

    pub closed spec fn spec_number_row(self) -> u16 {
        self.number_row
    }

    pub closed spec fn spec_tiles(self) -> Seq<bool> {
        self.tiles@
    }

    /// Builds a map, refusing tile arrays whose length is not one per cell,
    /// as the backend decoder did.
    pub fn new(uuid: u128, name: String, row_size: u16, number_row: u16, tiles: Vec<
        bool,
    >) -> (r: Result<GameMap, Vec<bool>>)
        ensures
            match r {
                Ok(map) => {
                    &&& map.wf()
                    &&& map.spec_id() == uuid
                    &&& map.spec_name() == name@
                    &&& map.spec_row_size() == row_size
                    &&& map.spec_number_row() == number_row
                    &&& map.spec_tiles() == tiles@
                    &&& tiles@.len() == row_size as int * number_row as int
                },
                Err(rejected) => {
                    &&& rejected@ == tiles@
                    &&& tiles@.len() != row_size as int * number_row as int
                },
            },
    {
        proof {
            assert(row_size as int * number_row as int <= 0xffff * 0xffff) by (nonlinear_arith)
                requires
                    row_size <= 0xffff && number_row <= 0xffff,
            ;
        }
        let expected: u64 = row_size as u64 * number_row as u64;
        if tiles.len() as u64 != expected {
            Err(tiles)
        } else {
            Ok(GameMap { uuid, name, row_size, number_row, tiles })
        }
    }

    pub fn get_id(&self) -> (r: u128)
        ensures
            r == self.spec_id(),
    {
        self.uuid
    }

    pub fn get_name(&self) -> (r: &String)
        ensures
            r@ == self.spec_name(),
    {
        &self.name
    }

    pub fn get_row_size(&self) -> (r: u16)
        ensures
            r == self.spec_row_size(),
    {
        self.row_size
    }

    pub fn get_number_row(&self) -> (r: u16)
        ensures
            r == self.spec_number_row(),
    {
        self.number_row
    }

    /// The canned map used when the resource backend fails and the default
    /// fallback is on: ten rows of ten passable tiles.
    pub fn default_map(uuid: u128) -> (r: GameMap)
        ensures
            r.wf(),
            r.spec_id() == uuid,
            r.spec_row_size() == 10,
            r.spec_number_row() == 10,
            r.spec_tiles().len() == 100,
            forall|i: int| 0 <= i < 100 ==> r.spec_tiles()[i] == true,
            r.spec_name() == spec_default_map_name(uuid),
    {
        let tiles: Vec<bool> = vec![true; 100];
        let mut name = default_map_prefix();
        let uuid_str = format_uuid(uuid);
        name.append(uuid_str.as_str());
        GameMap { uuid, name, row_size: 10, number_row: 10, tiles }
    }
}

/// The name a defaulted map gets.
pub open spec fn spec_default_map_name(uuid: u128) -> Seq<char> {
    "Default map - "@ + spec_uuid_str(uuid)
}

fn default_map_prefix() -> (r: String)
    ensures
        r@ == "Default map - "@,
{
    let s: &str = "Default map - ";
    s.to_owned()
}

/// Representation of an entity reported to the coordinator and listed by the
/// management interface.
#[derive(Clone, Debug)]
pub struct EntityManagement {
    pub id: u64,
    pub entity_type: EntityDataType,
    pub skin: u64,
    pub current_pv: u64,
    pub position: PositionInstance,
    pub stats: Stats,
}

/// Which kind of entity a management record describes.
#[derive(Clone, Debug)]
pub enum EntityDataType {
    Player(PlayerStruct),
    Monster(MonsterStruct),
}

#[derive(Clone, Debug)]
pub struct PlayerStruct {
    pub uuid: u128,
    pub name: String,
    pub gold: u64,
    pub experience: u64,
    pub guild: String,
}

#[derive(Clone, Debug)]
pub struct MonsterStruct {
    pub monster_class: u128,
    pub name: String,
    pub behaviour_tree: String,
}

/// A position qualified by map and instance.
#[derive(Clone, Copy, Debug)]
pub struct PositionInstance {
    pub map: u128,
    pub x: i64,
    pub y: i64,
    pub instance: u64,
}

/// A request to create an AI entity at a position of an instance.
#[derive(Clone, Copy, Debug)]
pub struct SpawnMonster {
    pub monster_class: u128,
    pub x: i64,
    pub y: i64,
}

impl SpawnMonster {
    /// Whether the requested spawn point lies within world bounds.
    pub open spec fn wf(self) -> bool {
        -POS_LIMIT_NANO <= self.x <= POS_LIMIT_NANO && -POS_LIMIT_NANO <= self.y
            <= POS_LIMIT_NANO
    }
}

/// A request to register an authentication token for a character.
#[derive(Clone, Debug)]
pub struct ConnectCharacterParam {
    pub token: Vec<u8>,
    pub id: u128,
}

/// A listing entry for one live instance.
#[derive(Clone, Debug)]
pub struct GetInstances {
    pub id: u64,
    pub map: u128,
    pub created_at: u64,
}

/// A listing entry for one loaded map.
#[derive(Clone, Debug)]
pub struct GetMaps {
    pub uuid: u128,
    pub name: String,
}

} // verus!
